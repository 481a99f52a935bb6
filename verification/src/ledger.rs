//! The wager ledger: a keyed store of wager records, the open and matched
//! indices, the participation log, the event log and the disbursement
//! record, operated on by transactional operations with all-or-nothing
//! semantics.
//!
//! Ids are dense: the wager with id `i` lives at position `i - 1` of `bets`,
//! and `bet_id_counter` equals the number of wagers ever created. The open
//! and matched indices hold ids without duplicates and in no meaningful
//! order; removal swaps with the last element and pops.

use vstd::prelude::*;

use crate::bet::Bet;
use crate::bet::BetError;
use crate::bet::BetEvent;
use crate::bet::BetStatus;
use crate::bet::Payout;
use crate::bet::status_progress;

verus! {

broadcast use vstd::seq_lib::lemma_seq_contains_after_push;

/// An owned copy of a byte string, needed where one value must be stored in
/// two places of the ledger.
fn copy_bytes(src: &Vec<u8>) -> (r: Vec<u8>)
    ensures
        r@ == src@,
{
    let mut r: Vec<u8> = Vec::new();
    let mut i: usize = 0;
    while i < src.len()
        invariant
            i <= src@.len(),
            r@ == src@.subrange(0, i as int),
        decreases src@.len() - i,
    {
        let ghost r_before = r@;
        r.push(src[i]);
        proof {
            assert(r_before.push(src@[i as int]) =~= src@.subrange(0, i + 1));
        }
        i = i + 1;
    }
    proof {
        assert(src@.subrange(0, src@.len() as int) =~= src@);
    }
    r
}

/// Removing position `i` of a duplicate-free sequence by swapping in the
/// last element and dropping it removes exactly `s[i]`: membership of every
/// other element is kept, and no duplicate appears.
proof fn lemma_swap_remove_set(s: Seq<u64>, i: int)
    requires
        0 <= i < s.len(),
        s.no_duplicates(),
    ensures
        s.update(i, s.last()).drop_last().no_duplicates(),
        forall|x: u64| #[trigger]
            s.update(i, s.last()).drop_last().contains(x) <==> (s.contains(x) && x != s[i]),
{
    let t = s.update(i, s.last()).drop_last();
    assert forall|x: u64| #[trigger] t.contains(x) implies s.contains(x) && x != s[i] by {
        let j = choose|j: int| 0 <= j < t.len() && t[j] == x;
        if j == i {
            assert(s[s.len() - 1] == x);
            assert(s.contains(x));
        } else {
            assert(s[j] == x);
            assert(s.contains(x));
        }
    }
    assert forall|x: u64| s.contains(x) && x != s[i] implies #[trigger] t.contains(x) by {
        let j = choose|j: int| 0 <= j < s.len() && s[j] == x;
        if j < s.len() - 1 {
            assert(t[j] == x);
        } else {
            assert(i < s.len() - 1);
            assert(t[i] == x);
        }
    }
    assert forall|j: int, k: int|
        0 <= j < t.len() && 0 <= k < t.len() && j != k implies t[j] != t[k] by {
        let j0: int = if j == i {
            s.len() - 1
        } else {
            j
        };
        let k0: int = if k == i {
            s.len() - 1
        } else {
            k
        };
        assert(t[j] == s[j0] && t[k] == s[k0] && j0 != k0);
    }
}

/// Removes the wager id `id` from an index by swapping it with the last
/// entry and popping, the O(1) removal the indices use; order of the
/// remaining entries is not preserved and carries no meaning.
fn remove_id(v: &mut Vec<u64>, id: u64)
    requires
        old(v)@.no_duplicates(),
    ensures
        final(v)@.no_duplicates(),
        forall|x: u64| #[trigger] final(v)@.contains(x) <==> (old(v)@.contains(x) && x != id),
        old(v)@.contains(id) ==> final(v)@.len() == old(v)@.len() - 1,
        !old(v)@.contains(id) ==> *final(v) == *old(v),
{
    match BettingContract::find_in_vec(v, id) {
        Some(i) => {
            proof {
                lemma_swap_remove_set(v@, i as int);
            }
            v.swap_remove(i);
        },
        None => {
        },
    }
}

/// The ledger. One value of this type owns the whole persisted state of the
/// escrow; the surrounding environment supplies caller identity, attached
/// payment and the current timestamp per call, and performs the payouts the
/// ledger records.
pub struct BettingContract {
    /// The designated arbiter, fixed at initialization: the only identity
    /// allowed to resolve wagers.
    pub owner: u64,
    /// Total wagers ever created; the id of the newest wager.
    pub bet_id_counter: u64,
    /// All wager records, in creation order: id `i` at position `i - 1`.
    pub bets: Vec<Bet>,
    /// Ids of the wagers whose status is `Open`, in no meaningful order.
    pub active_bets: Vec<u64>,
    /// Ids of the wagers whose status is `Matched`, in no meaningful order.
    pub matched_bets: Vec<u64>,
    /// Append-only participation log: one `(identity, id)` pair for each
    /// wager an identity entered, as creator or as challenger.
    pub user_bets: Vec<(u64, u64)>,
    /// Append-only record of every disbursement out of custody.
    pub payouts: Vec<Payout>,
    /// Append-only log of every state-changing operation.
    pub events: Vec<BetEvent>,
}

impl BettingContract {
    /// A wager with this id exists.
    pub open spec fn valid_id(self, id: u64) -> bool {
        1 <= id <= self.bets@.len()
    }

    /// The record of the wager with id `id`.
    pub open spec fn bet_at(self, id: u64) -> Bet {
        self.bets@[id - 1]
    }

    /// A payout entry agrees with the terminal record of its wager: the
    /// creator's stake back to the creator on cancellation, the full pool to
    /// the winner on resolution, and nothing for a wager that is still live.
    pub open spec fn payout_matches(self, p: Payout) -> bool {
        &&& self.valid_id(p.bet_id)
        &&& match self.bet_at(p.bet_id).status {
            BetStatus::Cancelled => p.to == self.bet_at(p.bet_id).creator && p.amount
                == self.bet_at(p.bet_id).creator_stake,
            BetStatus::Resolved => p.to == self.bet_at(p.bet_id).winner.unwrap() && p.amount
                == self.bet_at(p.bet_id).pool(),
            _ => false,
        }
    }

    /// The disbursement record is exact: every entry matches its wager's
    /// terminal record, no wager is paid twice, and every terminal wager has
    /// been paid.
    pub open spec fn payouts_ok(self) -> bool {
        &&& forall|k: int|
            0 <= k < self.payouts@.len() ==> self.payout_matches(#[trigger] self.payouts@[k])
        &&& forall|k: int, l: int|
            0 <= k < l < self.payouts@.len() ==> (#[trigger] self.payouts@[k]).bet_id != (
            #[trigger] self.payouts@[l]).bet_id
        &&& forall|i: int|
            0 <= i < self.bets@.len() && ((#[trigger] self.bets@[i]).status is Resolved
                || self.bets@[i].status is Cancelled) ==> exists|k: int|
                0 <= k < self.payouts@.len() && (#[trigger] self.payouts@[k]).bet_id == i + 1
    }

    /// The ledger invariant: established by `init` and preserved by every
    /// operation.
    pub open spec fn wf(self) -> bool {
        &&& self.bet_id_counter == self.bets@.len()
        &&& forall|i: int|
            0 <= i < self.bets@.len() ==> (#[trigger] self.bets@[i]).id == i + 1
        &&& forall|i: int| 0 <= i < self.bets@.len() ==> (#[trigger] self.bets@[i]).wf()
        &&& self.active_bets@.no_duplicates()
        &&& self.matched_bets@.no_duplicates()
        &&& forall|id: u64| #[trigger]
            self.active_bets@.contains(id) ==> self.valid_id(id) && self.bet_at(id).status is Open
        &&& forall|i: int|
            0 <= i < self.bets@.len() && (#[trigger] self.bets@[i]).status is Open
                ==> self.active_bets@.contains(self.bets@[i].id)
        &&& forall|id: u64| #[trigger]
            self.matched_bets@.contains(id) ==> self.valid_id(id) && self.bet_at(
                id,
            ).status is Matched
        &&& forall|i: int|
            0 <= i < self.bets@.len() && (#[trigger] self.bets@[i]).status is Matched
                ==> self.matched_bets@.contains(self.bets@[i].id)
        &&& self.payouts_ok()
    }

    /// Sets up an empty ledger. The caller of the initialization becomes the
    /// owner, the single identity allowed to resolve wagers.
    pub fn init(owner: u64) -> (l: BettingContract)
        ensures
            l.wf(),
            l.owner == owner,
            l.bet_id_counter == 0,
            l.bets@ == Seq::<Bet>::empty(),
            l.active_bets@ == Seq::<u64>::empty(),
            l.matched_bets@ == Seq::<u64>::empty(),
            l.user_bets@ == Seq::<(u64, u64)>::empty(),
            l.payouts@ == Seq::<Payout>::empty(),
            l.events@ == Seq::<BetEvent>::empty(),
    {
        BettingContract {
            owner,
            bet_id_counter: 0,
            bets: Vec::new(),
            active_bets: Vec::new(),
            matched_bets: Vec::new(),
            user_bets: Vec::new(),
            payouts: Vec::new(),
            events: Vec::new(),
        }
    }

    /// Present for completeness of the deployment surface: redeployment
    /// changes nothing in the ledger.
    pub fn upgrade(&mut self)
        ensures
            *final(self) == *old(self),
    {
    }

    /// Total wagers ever created: the current value of the id counter.
    pub fn get_total_bet_count(&self) -> (n: u64)
        ensures
            n == self.bet_id_counter,
    {
        self.bet_id_counter
    }

    /// The opaque terms reference of an existing wager; `NotFound` if no
    /// wager has this id.
    pub fn get_bet_by_id(&self, bet_id: u64) -> (r: Result<&Vec<u8>, BetError>)
        ensures
            match r {
                Ok(d) => self.valid_id(bet_id) && d@ == self.bet_at(bet_id).description@,
                Err(e) => !self.valid_id(bet_id) && e == BetError::NotFound,
            },
    {
        if 1 <= bet_id && bet_id <= self.bets.len() as u64 {
            Ok(&self.bets[(bet_id - 1) as usize].description)
        } else {
            Err(BetError::NotFound)
        }
    }

    /// The result `create_bet` owes for a given deposit: the next unused id
    /// on any positive deposit, `InvalidStake` on a zero one.
    pub open spec fn create_outcome(self, payment: u64) -> Result<u64, BetError> {
        if payment == 0 {
            Err(BetError::InvalidStake)
        } else {
            Ok((self.bet_id_counter + 1) as u64)
        }
    }

    /// Opens a new wager. `caller` is the identity making the call,
    /// `payment` the value attached to it (taken into custody as the
    /// creator's stake), `now` the current ledger timestamp and
    /// `description` the opaque terms reference. Allocates the next id,
    /// stores the record with status `Open`, indexes it as open, logs the
    /// creator's participation and records the creation event.
    pub fn create_bet(
        &mut self,
        caller: u64,
        payment: u64,
        now: u64,
        description: Vec<u8>,
    ) -> (r: Result<u64, BetError>)
        requires
            old(self).wf(),
            old(self).bet_id_counter < u64::MAX,
        ensures
            final(self).wf(),
            r == old(self).create_outcome(payment),
            r is Err ==> *final(self) == *old(self),
            r is Ok ==> final(self).bets@ == old(self).bets@.push(
                Bet {
                    id: (old(self).bet_id_counter + 1) as u64,
                    creator: caller,
                    description: description,
                    status: BetStatus::Open,
                    creator_stake: payment,
                    challenger: None,
                    challenger_stake: 0u64,
                    winner: None,
                    result: None,
                    creation_timestamp: now,
                },
            ),
            r is Ok ==> {
                &&& final(self).bet_id_counter == old(self).bet_id_counter + 1
                &&& final(self).active_bets@ == old(self).active_bets@.push(
                    (old(self).bet_id_counter + 1) as u64,
                )
                &&& final(self).matched_bets@ == old(self).matched_bets@
                &&& final(self).user_bets@ == old(self).user_bets@.push(
                    (caller, (old(self).bet_id_counter + 1) as u64),
                )
                &&& final(self).payouts@ == old(self).payouts@
                &&& final(self).events@.len() == old(self).events@.len() + 1
                &&& forall|k: int|
                    0 <= k < old(self).events@.len() ==> final(self).events@[k] == old(
                        self,
                    ).events@[k]
                &&& (final(self).events@.last() matches BetEvent::BetCreated {
                    bet_id,
                    creator,
                    description: d,
                    stake,
                } && bet_id == old(self).bet_id_counter + 1 && creator == caller && d@
                    == description@ && stake == payment)
                &&& final(self).owner == old(self).owner
            },
            forall|i: int|
                0 <= i < old(self).bets@.len() ==> status_progress(
                    (#[trigger] old(self).bets@[i]).status,
                    final(self).bets@[i].status,
                ),
    {
        if payment == 0 {
            return Err(BetError::InvalidStake);
        }
        let bet_id = self.bet_id_counter + 1;
        self.bet_id_counter = bet_id;
        let event_description = copy_bytes(&description);
        let bet = Bet {
            id: bet_id,
            creator: caller,
            description,
            status: BetStatus::Open,
            creator_stake: payment,
            challenger: None,
            challenger_stake: 0,
            winner: None,
            result: None,
            creation_timestamp: now,
        };
        self.bets.push(bet);
        self.user_bets.push((caller, bet_id));
        self.active_bets.push(bet_id);
        self.events.push(
            BetEvent::BetCreated {
                bet_id,
                creator: caller,
                description: event_description,
                stake: payment,
            },
        );
        proof {
            let n = old(self).bets@.len() as int;
            assert(!old(self).active_bets@.contains(bet_id));
            assert(self.active_bets@.no_duplicates()) by {
                assert forall|i: int, j: int|
                    0 <= i < self.active_bets@.len() && 0 <= j < self.active_bets@.len() && i
                        != j implies self.active_bets@[i] != self.active_bets@[j] by {
                    if i < old(self).active_bets@.len() && j < old(self).active_bets@.len() {
                        assert(old(self).active_bets@[i] != old(self).active_bets@[j]);
                    } else if i < old(self).active_bets@.len() {
                        assert(old(self).active_bets@.contains(old(self).active_bets@[i]));
                    } else {
                        assert(old(self).active_bets@.contains(old(self).active_bets@[j]));
                    }
                }
            }
            assert forall|id: u64| #[trigger]
                self.active_bets@.contains(id) implies self.valid_id(id) && self.bet_at(
                id,
            ).status is Open by {
                if id != bet_id {
                    assert(old(self).active_bets@.contains(id));
                    assert(old(self).bet_at(id) == self.bet_at(id));
                } else {
                    assert(self.bets@[n] == self.bets@.last());
                }
            }
            assert forall|i: int|
                0 <= i < self.bets@.len() && (#[trigger] self.bets@[i]).status is Open implies self
                .active_bets@.contains(self.bets@[i].id) by {
                if i < n {
                    assert(old(self).active_bets@.contains(old(self).bets@[i].id));
                } else {
                    assert(self.active_bets@ == old(self).active_bets@.push(bet_id));
                }
            }
            assert forall|id: u64| #[trigger]
                self.matched_bets@.contains(id) implies self.valid_id(id) && self.bet_at(
                id,
            ).status is Matched by {
                assert(old(self).bet_at(id) == self.bet_at(id));
            }
            assert forall|i: int|
                0 <= i < self.bets@.len() && (#[trigger] self.bets@[i]).status
                    is Matched implies self.matched_bets@.contains(self.bets@[i].id) by {
                if i < n {
                    assert(old(self).matched_bets@.contains(old(self).bets@[i].id));
                }
            }
            assert forall|k: int|
                0 <= k < self.payouts@.len() implies self.payout_matches(
                #[trigger] self.payouts@[k],
            ) by {
                assert(old(self).payout_matches(old(self).payouts@[k]));
                assert(self.bet_at(self.payouts@[k].bet_id) == old(self).bet_at(
                    old(self).payouts@[k].bet_id,
                ));
            }
            assert forall|i: int|
                0 <= i < self.bets@.len() && ((#[trigger] self.bets@[i]).status is Resolved
                    || self.bets@[i].status is Cancelled) implies exists|k: int|
                0 <= k < self.payouts@.len() && (#[trigger] self.payouts@[k]).bet_id == i + 1 by {
                if i < n {
                    let k = choose|k: int|
                        0 <= k < old(self).payouts@.len() && (#[trigger] old(
                            self,
                        ).payouts@[k]).bet_id == i + 1;
                    assert(self.payouts@[k].bet_id == i + 1);
                }
            }
        }
        Ok(bet_id)
    }

    /// The result `accept_bet` owes, with the checks in the order the
    /// operation makes them: the wager must exist, be `Open`, not be the
    /// caller's own, have no challenger yet, and the deposit must equal the
    /// creator's stake exactly.
    pub open spec fn accept_outcome(self, caller: u64, payment: u64, bet_id: u64) -> Result<
        (),
        BetError,
    > {
        if !self.valid_id(bet_id) {
            Err(BetError::NotFound)
        } else if !(self.bet_at(bet_id).status is Open) {
            Err(BetError::NotOpen)
        } else if caller == self.bet_at(bet_id).creator {
            Err(BetError::SelfMatch)
        } else if self.bet_at(bet_id).challenger is Some {
            Err(BetError::AlreadyMatched)
        } else if payment != self.bet_at(bet_id).creator_stake {
            Err(BetError::StakeMismatch)
        } else {
            Ok(())
        }
    }

    /// Matches an open wager: `caller` becomes the challenger and `payment`
    /// (which must equal the creator's stake) is taken into custody, doubling
    /// the pool. The wager moves from the open index to the matched index,
    /// the challenger's participation is logged and the acceptance event is
    /// recorded. On any rejection the ledger is left untouched.
    pub fn accept_bet(&mut self, caller: u64, payment: u64, bet_id: u64) -> (r: Result<
        (),
        BetError,
    >)
        requires
            old(self).wf(),
        ensures
            final(self).wf(),
            r == old(self).accept_outcome(caller, payment, bet_id),
            r is Err ==> *final(self) == *old(self),
            r is Ok ==> {
                &&& final(self).bets@ == old(self).bets@.update(
                    bet_id - 1,
                    old(self).bet_at(bet_id).accepted(caller),
                )
                &&& forall|x: u64| #[trigger]
                    final(self).active_bets@.contains(x) <==> (old(self).active_bets@.contains(x)
                        && x != bet_id)
                &&& final(self).active_bets@.len() == old(self).active_bets@.len() - 1
                &&& final(self).matched_bets@ == old(self).matched_bets@.push(bet_id)
                &&& final(self).user_bets@ == old(self).user_bets@.push((caller, bet_id))
                &&& final(self).payouts@ == old(self).payouts@
                &&& final(self).events@ == old(self).events@.push(
                    BetEvent::BetAccepted { bet_id, challenger: caller, stake: payment },
                )
                &&& final(self).owner == old(self).owner
                &&& final(self).bet_id_counter == old(self).bet_id_counter
            },
            forall|i: int|
                0 <= i < old(self).bets@.len() ==> status_progress(
                    (#[trigger] old(self).bets@[i]).status,
                    final(self).bets@[i].status,
                ),
    {
        if !(1 <= bet_id && bet_id <= self.bets.len() as u64) {
            return Err(BetError::NotFound);
        }
        let idx = (bet_id - 1) as usize;
        if !(self.bets[idx].status == BetStatus::Open) {
            return Err(BetError::NotOpen);
        }
        if self.bets[idx].creator == caller {
            return Err(BetError::SelfMatch);
        }
        if self.bets[idx].challenger.is_some() {
            return Err(BetError::AlreadyMatched);
        }
        if payment != self.bets[idx].creator_stake {
            return Err(BetError::StakeMismatch);
        }
        let bet = &mut self.bets[idx];
        bet.challenger = Some(caller);
        bet.challenger_stake = payment;
        bet.status = BetStatus::Matched;
        self.user_bets.push((caller, bet_id));
        proof {
            assert(old(self).active_bets@.contains(bet_id));
            assert(!old(self).matched_bets@.contains(bet_id));
        }
        remove_id(&mut self.active_bets, bet_id);
        self.matched_bets.push(bet_id);
        self.events.push(BetEvent::BetAccepted { bet_id, challenger: caller, stake: payment });
        proof {
            let i0 = bet_id - 1;
            assert(self.bets@ =~= old(self).bets@.update(
                i0,
                old(self).bet_at(bet_id).accepted(caller),
            ));
            assert(self.matched_bets@.no_duplicates()) by {
                assert forall|i: int, j: int|
                    0 <= i < self.matched_bets@.len() && 0 <= j < self.matched_bets@.len() && i
                        != j implies self.matched_bets@[i] != self.matched_bets@[j] by {
                    if i < old(self).matched_bets@.len() && j < old(self).matched_bets@.len() {
                        assert(old(self).matched_bets@[i] != old(self).matched_bets@[j]);
                    } else if i < old(self).matched_bets@.len() {
                        assert(old(self).matched_bets@.contains(old(self).matched_bets@[i]));
                    } else {
                        assert(old(self).matched_bets@.contains(old(self).matched_bets@[j]));
                    }
                }
            }
            assert forall|id: u64| #[trigger]
                self.active_bets@.contains(id) implies self.valid_id(id) && self.bet_at(
                id,
            ).status is Open by {
                assert(old(self).active_bets@.contains(id) && id != bet_id);
                assert(self.bet_at(id) == old(self).bet_at(id));
            }
            assert forall|i: int|
                0 <= i < self.bets@.len() && (#[trigger] self.bets@[i]).status is Open implies self
                .active_bets@.contains(self.bets@[i].id) by {
                assert(i != i0);
                assert(old(self).active_bets@.contains(old(self).bets@[i].id));
                assert(old(self).bets@[i].id != bet_id);
            }
            assert forall|id: u64| #[trigger]
                self.matched_bets@.contains(id) implies self.valid_id(id) && self.bet_at(
                id,
            ).status is Matched by {
                if id != bet_id {
                    assert(old(self).matched_bets@.contains(id));
                    assert(self.bet_at(id) == old(self).bet_at(id));
                }
            }
            assert forall|i: int|
                0 <= i < self.bets@.len() && (#[trigger] self.bets@[i]).status
                    is Matched implies self.matched_bets@.contains(self.bets@[i].id) by {
                if i != i0 {
                    assert(old(self).matched_bets@.contains(old(self).bets@[i].id));
                }
            }
            assert forall|k: int|
                0 <= k < self.payouts@.len() implies self.payout_matches(
                #[trigger] self.payouts@[k],
            ) by {
                assert(old(self).payout_matches(old(self).payouts@[k]));
                assert(self.payouts@[k].bet_id != bet_id);
                assert(self.bet_at(self.payouts@[k].bet_id) == old(self).bet_at(
                    old(self).payouts@[k].bet_id,
                ));
            }
            assert forall|i: int|
                0 <= i < self.bets@.len() && ((#[trigger] self.bets@[i]).status is Resolved
                    || self.bets@[i].status is Cancelled) implies exists|k: int|
                0 <= k < self.payouts@.len() && (#[trigger] self.payouts@[k]).bet_id == i + 1 by {
                assert(i != i0);
                let k = choose|k: int|
                    0 <= k < old(self).payouts@.len() && (#[trigger] old(self).payouts@[k]).bet_id
                        == i + 1;
                assert(self.payouts@[k].bet_id == i + 1);
            }
        }
        Ok(())
    }

    /// The result `cancel_bet` owes: the wager must exist, still be `Open`,
    /// and only its creator may cancel it. A matched wager can never be
    /// cancelled: once accepted, only resolution releases funds.
    pub open spec fn cancel_outcome(self, caller: u64, bet_id: u64) -> Result<(), BetError> {
        if !self.valid_id(bet_id) {
            Err(BetError::NotFound)
        } else if !(self.bet_at(bet_id).status is Open) {
            Err(BetError::NotOpen)
        } else if caller != self.bet_at(bet_id).creator {
            Err(BetError::Unauthorized)
        } else {
            Ok(())
        }
    }

    /// Cancels an unmatched wager: the full creator stake leaves custody
    /// back to the creator (recorded as a payout), the wager becomes
    /// `Cancelled` and leaves the open index, and the cancellation event is
    /// recorded. On any rejection the ledger is left untouched.
    pub fn cancel_bet(&mut self, caller: u64, bet_id: u64) -> (r: Result<(), BetError>)
        requires
            old(self).wf(),
        ensures
            final(self).wf(),
            r == old(self).cancel_outcome(caller, bet_id),
            r is Err ==> *final(self) == *old(self),
            r is Ok ==> {
                &&& final(self).bets@ == old(self).bets@.update(
                    bet_id - 1,
                    old(self).bet_at(bet_id).cancelled(),
                )
                &&& forall|x: u64| #[trigger]
                    final(self).active_bets@.contains(x) <==> (old(self).active_bets@.contains(x)
                        && x != bet_id)
                &&& final(self).active_bets@.len() == old(self).active_bets@.len() - 1
                &&& final(self).matched_bets@ == old(self).matched_bets@
                &&& final(self).user_bets@ == old(self).user_bets@
                &&& final(self).payouts@ == old(self).payouts@.push(
                    Payout {
                        bet_id,
                        to: old(self).bet_at(bet_id).creator,
                        amount: old(self).bet_at(bet_id).creator_stake as u128,
                    },
                )
                &&& final(self).events@ == old(self).events@.push(
                    BetEvent::BetCancelled { bet_id, creator: caller },
                )
                &&& final(self).owner == old(self).owner
                &&& final(self).bet_id_counter == old(self).bet_id_counter
            },
            forall|i: int|
                0 <= i < old(self).bets@.len() ==> status_progress(
                    (#[trigger] old(self).bets@[i]).status,
                    final(self).bets@[i].status,
                ),
    {
        if !(1 <= bet_id && bet_id <= self.bets.len() as u64) {
            return Err(BetError::NotFound);
        }
        let idx = (bet_id - 1) as usize;
        if !(self.bets[idx].status == BetStatus::Open) {
            return Err(BetError::NotOpen);
        }
        if self.bets[idx].creator != caller {
            return Err(BetError::Unauthorized);
        }
        let refund = self.bets[idx].creator_stake;
        let bet = &mut self.bets[idx];
        bet.status = BetStatus::Cancelled;
        proof {
            assert(old(self).active_bets@.contains(bet_id));
        }
        remove_id(&mut self.active_bets, bet_id);
        self.payouts.push(Payout { bet_id, to: caller, amount: refund as u128 });
        self.events.push(BetEvent::BetCancelled { bet_id, creator: caller });
        proof {
            let i0 = bet_id - 1;
            assert(self.bets@ =~= old(self).bets@.update(i0, old(self).bet_at(bet_id).cancelled()));
            assert forall|k: int|
                0 <= k < old(self).payouts@.len() implies (#[trigger] old(self).payouts@[k]).bet_id
                != bet_id by {
                assert(old(self).payout_matches(old(self).payouts@[k]));
            }
            assert forall|id: u64| #[trigger]
                self.active_bets@.contains(id) implies self.valid_id(id) && self.bet_at(
                id,
            ).status is Open by {
                assert(old(self).active_bets@.contains(id) && id != bet_id);
                assert(self.bet_at(id) == old(self).bet_at(id));
            }
            assert forall|i: int|
                0 <= i < self.bets@.len() && (#[trigger] self.bets@[i]).status is Open implies self
                .active_bets@.contains(self.bets@[i].id) by {
                assert(i != i0);
                assert(old(self).active_bets@.contains(old(self).bets@[i].id));
                assert(old(self).bets@[i].id != bet_id);
            }
            assert forall|id: u64| #[trigger]
                self.matched_bets@.contains(id) implies self.valid_id(id) && self.bet_at(
                id,
            ).status is Matched by {
                assert(old(self).matched_bets@.contains(id));
                assert(id != bet_id);
                assert(self.bet_at(id) == old(self).bet_at(id));
            }
            assert forall|i: int|
                0 <= i < self.bets@.len() && (#[trigger] self.bets@[i]).status
                    is Matched implies self.matched_bets@.contains(self.bets@[i].id) by {
                assert(i != i0);
                assert(old(self).matched_bets@.contains(old(self).bets@[i].id));
            }
            assert forall|k: int|
                0 <= k < self.payouts@.len() implies self.payout_matches(
                #[trigger] self.payouts@[k],
            ) by {
                if k < old(self).payouts@.len() {
                    assert(old(self).payout_matches(old(self).payouts@[k]));
                    assert(self.payouts@[k].bet_id != bet_id);
                    assert(self.bet_at(self.payouts@[k].bet_id) == old(self).bet_at(
                        old(self).payouts@[k].bet_id,
                    ));
                } else {
                    assert(self.payouts@[k] == self.payouts@.last());
                }
            }
            assert forall|i: int|
                0 <= i < self.bets@.len() && ((#[trigger] self.bets@[i]).status is Resolved
                    || self.bets@[i].status is Cancelled) implies exists|k: int|
                0 <= k < self.payouts@.len() && (#[trigger] self.payouts@[k]).bet_id == i + 1 by {
                if i != i0 {
                    let k = choose|k: int|
                        0 <= k < old(self).payouts@.len() && (#[trigger] old(
                            self,
                        ).payouts@[k]).bet_id == i + 1;
                    assert(self.payouts@[k].bet_id == i + 1);
                } else {
                    assert(self.payouts@[old(self).payouts@.len() as int].bet_id == i + 1);
                }
            }
        }
        Ok(())
    }

    /// The result `resolve_bet` owes: only the owner (the arbiter fixed at
    /// initialization) may resolve, the wager must exist and must be
    /// `Matched`.
    pub open spec fn resolve_outcome(self, caller: u64, bet_id: u64) -> Result<(), BetError> {
        if caller != self.owner {
            Err(BetError::Unauthorized)
        } else if !self.valid_id(bet_id) {
            Err(BetError::NotFound)
        } else if !(self.bet_at(bet_id).status is Matched) {
            Err(BetError::NotMatched)
        } else {
            Ok(())
        }
    }

    /// Resolves a matched wager on the arbiter's report: the full pool
    /// (both stakes) leaves custody to the winner — the creator on `true`,
    /// the challenger on `false` — recorded as a payout; the winner and the
    /// outcome are stored, the wager becomes `Resolved` and leaves the
    /// matched index, and the resolution event is recorded. This is the only
    /// path by which value leaves a matched wager. On any rejection the
    /// ledger is left untouched.
    pub fn resolve_bet(&mut self, caller: u64, bet_id: u64, result: bool) -> (r: Result<
        (),
        BetError,
    >)
        requires
            old(self).wf(),
        ensures
            final(self).wf(),
            r == old(self).resolve_outcome(caller, bet_id),
            r is Err ==> *final(self) == *old(self),
            r is Ok ==> {
                &&& final(self).bets@ == old(self).bets@.update(
                    bet_id - 1,
                    old(self).bet_at(bet_id).resolved(result),
                )
                &&& forall|x: u64| #[trigger]
                    final(self).matched_bets@.contains(x) <==> (old(self).matched_bets@.contains(x)
                        && x != bet_id)
                &&& final(self).matched_bets@.len() == old(self).matched_bets@.len() - 1
                &&& final(self).active_bets@ == old(self).active_bets@
                &&& final(self).user_bets@ == old(self).user_bets@
                &&& final(self).payouts@ == old(self).payouts@.push(
                    Payout {
                        bet_id,
                        to: old(self).bet_at(bet_id).winner_for(result),
                        amount: old(self).bet_at(bet_id).pool() as u128,
                    },
                )
                &&& final(self).events@ == old(self).events@.push(
                    BetEvent::BetResolved {
                        bet_id,
                        winner: old(self).bet_at(bet_id).winner_for(result),
                        total_pool: old(self).bet_at(bet_id).pool() as u128,
                        result,
                    },
                )
                &&& final(self).owner == old(self).owner
                &&& final(self).bet_id_counter == old(self).bet_id_counter
            },
            forall|i: int|
                0 <= i < old(self).bets@.len() ==> status_progress(
                    (#[trigger] old(self).bets@[i]).status,
                    final(self).bets@[i].status,
                ),
    {
        if caller != self.owner {
            return Err(BetError::Unauthorized);
        }
        if !(1 <= bet_id && bet_id <= self.bets.len() as u64) {
            return Err(BetError::NotFound);
        }
        let idx = (bet_id - 1) as usize;
        if !(self.bets[idx].status == BetStatus::Matched) {
            return Err(BetError::NotMatched);
        }
        proof {
            assert(old(self).bets@[idx as int].wf());
        }
        let challenger = match self.bets[idx].challenger {
            Some(c) => c,
            None => {
                // Unreachable under the ledger invariant: a matched wager
                // always has a challenger. Kept as a defensive check.
                return Err(BetError::NotMatched);
            },
        };
        let winner = if result {
            self.bets[idx].creator
        } else {
            challenger
        };
        let total_pool = self.bets[idx].creator_stake as u128
            + self.bets[idx].challenger_stake as u128;
        let bet = &mut self.bets[idx];
        bet.status = BetStatus::Resolved;
        bet.winner = Some(winner);
        bet.result = Some(result);
        proof {
            assert(old(self).matched_bets@.contains(bet_id));
        }
        remove_id(&mut self.matched_bets, bet_id);
        self.payouts.push(Payout { bet_id, to: winner, amount: total_pool });
        self.events.push(
            BetEvent::BetResolved { bet_id, winner, total_pool, result },
        );
        proof {
            let i0 = bet_id - 1;
            assert(self.bets@ =~= old(self).bets@.update(
                i0,
                old(self).bet_at(bet_id).resolved(result),
            ));
            assert forall|k: int|
                0 <= k < old(self).payouts@.len() implies (#[trigger] old(self).payouts@[k]).bet_id
                != bet_id by {
                assert(old(self).payout_matches(old(self).payouts@[k]));
            }
            assert forall|id: u64| #[trigger]
                self.matched_bets@.contains(id) implies self.valid_id(id) && self.bet_at(
                id,
            ).status is Matched by {
                assert(old(self).matched_bets@.contains(id) && id != bet_id);
                assert(self.bet_at(id) == old(self).bet_at(id));
            }
            assert forall|i: int|
                0 <= i < self.bets@.len() && (#[trigger] self.bets@[i]).status
                    is Matched implies self.matched_bets@.contains(self.bets@[i].id) by {
                assert(i != i0);
                assert(old(self).matched_bets@.contains(old(self).bets@[i].id));
                assert(old(self).bets@[i].id != bet_id);
            }
            assert forall|id: u64| #[trigger]
                self.active_bets@.contains(id) implies self.valid_id(id) && self.bet_at(
                id,
            ).status is Open by {
                assert(old(self).active_bets@.contains(id));
                assert(id != bet_id);
                assert(self.bet_at(id) == old(self).bet_at(id));
            }
            assert forall|i: int|
                0 <= i < self.bets@.len() && (#[trigger] self.bets@[i]).status is Open implies self
                .active_bets@.contains(self.bets@[i].id) by {
                assert(i != i0);
                assert(old(self).active_bets@.contains(old(self).bets@[i].id));
            }
            assert forall|k: int|
                0 <= k < self.payouts@.len() implies self.payout_matches(
                #[trigger] self.payouts@[k],
            ) by {
                if k < old(self).payouts@.len() {
                    assert(old(self).payout_matches(old(self).payouts@[k]));
                    assert(self.payouts@[k].bet_id != bet_id);
                    assert(self.bet_at(self.payouts@[k].bet_id) == old(self).bet_at(
                        old(self).payouts@[k].bet_id,
                    ));
                } else {
                    assert(self.payouts@[k] == self.payouts@.last());
                }
            }
            assert forall|i: int|
                0 <= i < self.bets@.len() && ((#[trigger] self.bets@[i]).status is Resolved
                    || self.bets@[i].status is Cancelled) implies exists|k: int|
                0 <= k < self.payouts@.len() && (#[trigger] self.payouts@[k]).bet_id == i + 1 by {
                if i != i0 {
                    let k = choose|k: int|
                        0 <= k < old(self).payouts@.len() && (#[trigger] old(
                            self,
                        ).payouts@[k]).bet_id == i + 1;
                    assert(self.payouts@[k].bet_id == i + 1);
                } else {
                    assert(self.payouts@[old(self).payouts@.len() as int].bet_id == i + 1);
                }
            }
        }
        Ok(())
    }

    /// The position of the first occurrence of `item` in `v`, if any: the
    /// helper behind the swap-with-last removal of the open and matched
    /// indices.
    pub fn find_in_vec(v: &Vec<u64>, item: u64) -> (r: Option<usize>)
        ensures
            match r {
                Some(i) => i < v@.len() && v@[i as int] == item && (forall|j: int|
                    0 <= j < i ==> v@[j] != item),
                None => !v@.contains(item),
            },
    {
        let mut i: usize = 0;
        while i < v.len()
            invariant
                i <= v@.len(),
                forall|j: int| 0 <= j < i ==> v@[j] != item,
            decreases v@.len() - i,
        {
            if v[i] == item {
                return Some(i);
            }
            i = i + 1;
        }
        None
    }
}

} // verus!
