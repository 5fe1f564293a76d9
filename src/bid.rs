//! The bid record: bet history, participants, claim status, and the prices and
//! lifecycle states derived from them.
use vstd::prelude::*;

use crate::pricing::{
    lemma_escalation_increases, lemma_price_after_increases, price_after, Balance, INIT_BET_PRICE,
};

verus! {

/// Identifier of an account; a bid is identified by the account that was offered.
pub type AccountId = u64;

/// A point in time, in the unit the acquisition window is measured in.
pub type Timestamp = u64;

pub struct Bid {
    /// Accounts in the order they bet; the first is the beneficiary named by the offer.
    pub bets: Vec<AccountId>,
    /// Every account that touched this bid, each once.
    pub participants: Vec<AccountId>,
    /// The pending claim: who claimed, and when.
    pub claim_status: Option<(AccountId, Timestamp)>,
}

/// Price of the next bet on a bid whose history holds `n` entries.
pub open spec fn bet_price_for(n: nat) -> int {
    if n == 0 {
        INIT_BET_PRICE as int
    } else {
        price_after((n - 1) as nat)
    }
}

/// Prices only go up along the history of a bid.
pub proof fn lemma_price_after_monotone(a: nat, b: nat)
    requires
        a <= b,
    ensures
        price_after(a) <= price_after(b),
    decreases b - a,
{
    if a < b {
        lemma_price_after_monotone(a, (b - 1) as nat);
        lemma_price_after_increases((b - 1) as nat);
    }
}

/// Whether a claim made at `claimed_at` has aged past `window` at time `now`.
pub open spec fn window_elapsed(claimed_at: Timestamp, window: u64, now: Timestamp) -> bool {
    now as int - claimed_at as int >= window as int
}

impl Bid {
    pub open spec fn participant_set(&self) -> Set<AccountId> {
        self.participants@.to_set()
    }

    pub open spec fn spec_bet_price(&self) -> int {
        bet_price_for(self.bets@.len())
    }

    pub open spec fn spec_claim_price(&self) -> int {
        2 * self.spec_bet_price()
    }

    pub open spec fn spec_on_acquisition(&self, window: u64, now: Timestamp) -> bool {
        match self.claim_status {
            Some((_, t)) => window_elapsed(t, window, now),
            None => false,
        }
    }

    /// A stored bid: it has a history, its price fits, and so does its claim
    /// price while a claim is pending.
    pub open spec fn wf(&self) -> bool {
        &&& self.bets@.len() >= 1
        &&& self.participants@.no_duplicates()
        &&& self.spec_bet_price() <= u128::MAX
        &&& self.claim_status is Some ==> self.spec_claim_price() <= u128::MAX
    }

    /// Offered, never bet on, no claim.
    pub open spec fn is_open(&self) -> bool {
        self.bets@.len() == 1 && self.claim_status is None
    }

    /// At least one bet, no claim.
    pub open spec fn is_betting(&self) -> bool {
        self.bets@.len() >= 2 && self.claim_status is None
    }

    /// A claim is pending and its window has not elapsed.
    pub open spec fn is_claimed(&self, window: u64, now: Timestamp) -> bool {
        self.claim_status is Some && !self.spec_on_acquisition(window, now)
    }

    /// A claim is pending and its window has elapsed: the bid can be finalized.
    pub open spec fn is_acquirable(&self, window: u64, now: Timestamp) -> bool {
        self.spec_on_acquisition(window, now)
    }

    /// Exactly one lifecycle state holds of every stored bid at any time.
    pub proof fn lemma_one_state(&self, window: u64, now: Timestamp)
        requires
            self.wf(),
        ensures
            (self.is_open() as int) + (self.is_betting() as int) + (self.is_claimed(window, now) as int)
                + (self.is_acquirable(window, now) as int) == 1,
    {
    }

    /// Price of the next bet.
    pub fn calculate_bet_price(&self) -> (r: Balance)
        requires
            self.spec_bet_price() <= u128::MAX,
        ensures
            r == self.spec_bet_price(),
    {
        let n = self.bets.len();
        let mut p: Balance = INIT_BET_PRICE;
        if n == 0 {
            return p;
        }
        let mut i: usize = 1;
        while i < n
            invariant
                1 <= i <= n,
                n == self.bets@.len(),
                p == price_after((i - 1) as nat),
                price_after((n - 1) as nat) <= u128::MAX,
            decreases n - i,
        {
            proof {
                lemma_price_after_monotone(i as nat, (n - 1) as nat);
                lemma_price_after_increases((i - 1) as nat);
                lemma_escalation_increases(p as int);
            }
            p = p + p / 5;
            i = i + 1;
        }
        p
    }

    /// Price of a claim: twice the price of the next bet.
    pub fn force_calculate_claim_price(&self) -> (r: Balance)
        requires
            self.spec_claim_price() <= u128::MAX,
        ensures
            r == self.spec_claim_price(),
    {
        self.calculate_bet_price() * 2
    }

    /// Whether the pending claim, if any, has aged past the acquisition window.
    pub fn on_acquisition(&self, acquisition_time: &u64, now: Timestamp) -> (r: bool)
        ensures
            r == self.spec_on_acquisition(*acquisition_time, now),
    {
        match self.claim_status {
            Some((_, t)) => now >= t && now - t >= *acquisition_time,
            None => false,
        }
    }

    /// Adds `id` to the participants unless it is there already.
    pub fn add_participant(&mut self, id: AccountId)
        requires
            old(self).participants@.no_duplicates(),
        ensures
            final(self).participants@.no_duplicates(),
            final(self).participant_set() == old(self).participant_set().insert(id),
            final(self).bets == old(self).bets,
            final(self).claim_status == old(self).claim_status,
    {
        let mut i: usize = 0;
        while i < self.participants.len()
            invariant
                i <= self.participants@.len(),
                *self == *old(self),
                self.participants@.no_duplicates(),
                forall|j: int| 0 <= j < i ==> self.participants@[j] != id,
            decreases self.participants@.len() - i,
        {
            if self.participants[i] == id {
                assert(self.participant_set().insert(id) =~= self.participant_set());
                return;
            }
            i = i + 1;
        }
        let ghost before = self.participants@;
        self.participants.push(id);
        proof {
            assert(self.participants@ == before.push(id));
            assert(!before.contains(id));
            assert(self.participant_set() =~= before.to_set().insert(id)) by {
                assert forall|x: AccountId| self.participants@.contains(x) <==> before.contains(x) || x == id by {
                    if before.contains(x) {
                        let j = before.index_of(x);
                        assert(self.participants@[j] == x);
                    }
                    if self.participants@.contains(x) && x != id {
                        let j = self.participants@.index_of(x);
                        assert(j < before.len());
                        assert(before[j] == x);
                    }
                    if x == id {
                        assert(self.participants@[before.len() as int] == id);
                    }
                }
            }
        }
    }
}

} // verus!
