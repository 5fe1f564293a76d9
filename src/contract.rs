//! The ledger: bids, profiles, reward balances, the two leaderboards and the
//! commission pool, and the operations that move a bid through its lifecycle.
use std::collections::HashMap;
use vstd::prelude::*;

use crate::bid::{bet_price_for, AccountId, Bid, Timestamp};
use crate::leaderboard::{entry_lt, Entry, Leaderboard};
use crate::pricing::{
    commission_of, decay_left, decay_paid_to, decay_share, escalated, lemma_decay_share_bounded,
    lemma_escalation_increases, lemma_price_after_increases, payout, Balance, INIT_BET_PRICE, INV_COMMISSION,
    INV_REWARD_DECAY_MULT_100, OFFER_DEPOSIT,
};
use crate::profile::{
    extract_profile_or_create, profile_in, reward_in, save_profile, update_reward, Profile,
    ProfileView,
};

verus! {

broadcast use vstd::std_specs::hash::group_hash_axioms;

/// Why an operation was rejected; a rejected operation changes nothing.
#[derive(Clone, Copy, Debug, PartialEq, Eq, Structural)]
pub enum LedgerError {
    /// The deposit attached to an offer is below the offer deposit.
    OfferDepositNotEnough,
    /// An account named itself as the beneficiary of its own offer.
    GainerSameAsOffer,
    /// The account is already on offer.
    AlreadyOffered,
    /// The deposit attached to a bet is below the bet price plus the forfeit.
    BetForfeitNotEnough,
    /// The deposit attached to a claim is below the claim price.
    ClaimNotEnough,
    /// The bid already has a pending claim.
    AlreadyClaimed,
    /// No bid is stored under the given id.
    BidNotFound,
    /// The pending claim has aged past the window: the bid can no longer be bet on.
    BetOnAcquisition,
    /// The bid has no claim that has aged past the window.
    NotOnAcquisition,
    /// The account holds no acquisition right for the bid.
    AcquireRejected,
    /// A price, balance or counter would not fit its integer type.
    Overflow,
}

pub struct Contract {
    bids: HashMap<AccountId, Bid>,
    profiles: HashMap<AccountId, Profile>,
    rewards: HashMap<AccountId, Balance>,
    top_bets: Leaderboard,
    top_claims: Leaderboard,
    total_commission: Balance,
    total_distributed: Balance,
    acquisition_time: u64,
}

impl Contract {
    /// Live bids, by id.
    pub closed spec fn bids(&self) -> Map<AccountId, Bid> {
        self.bids@
    }

    pub closed spec fn profile(&self, id: AccountId) -> ProfileView {
        profile_in(self.profiles@, id)
    }

    /// The reward balance credited to `id`.
    pub closed spec fn reward(&self, id: AccountId) -> int {
        reward_in(self.rewards@, id)
    }

    /// Entries `(next bet price, id)`, one per live bid.
    pub closed spec fn top_bets(&self) -> Set<Entry> {
        self.top_bets@
    }

    /// Entries `(claim price, id)`, one per live bid with a pending claim.
    pub closed spec fn top_claims(&self) -> Set<Entry> {
        self.top_claims@
    }

    pub closed spec fn commission(&self) -> int {
        self.total_commission as int
    }

    /// All value taken in so far: offer deposits and bet prices, which went to
    /// commission and rewards.
    pub closed spec fn distributed(&self) -> int {
        self.total_distributed as int
    }

    /// How long a claim has to age before the bid can be finalized.
    pub closed spec fn window(&self) -> u64 {
        self.acquisition_time
    }

    /// The leaderboards mirror the bids exactly, and no balance can outgrow
    /// what was distributed.
    pub closed spec fn wf(&self) -> bool {
        &&& self.top_bets.wf()
        &&& self.top_claims.wf()
        &&& forall|id: AccountId| #[trigger] self.bids@.contains_key(id) ==> self.bids@[id].wf()
        &&& forall|e: Entry|
            #[trigger] self.top_bets@.contains(e) <==> (self.bids@.contains_key(e.1) && e.0
                == self.bids@[e.1].spec_bet_price())
        &&& forall|e: Entry|
            #[trigger] self.top_claims@.contains(e) <==> (self.bids@.contains_key(e.1)
                && self.bids@[e.1].claim_status is Some && e.0
                == self.bids@[e.1].spec_claim_price())
        &&& self.total_commission <= self.total_distributed
        &&& forall|p: AccountId| #[trigger]
            self.rewards@.contains_key(p) ==> self.rewards@[p] <= self.total_distributed
    }

    /// `wf` for every bid but `bid_id`, which has been taken out to be updated
    /// and is described by `b`: its next-bet entry is there exactly when it has
    /// a history, and a claim entry, if any, is at twice its price.
    pub closed spec fn detached(&self, bid_id: AccountId, b: Bid) -> bool {
        &&& self.top_bets.wf()
        &&& self.top_claims.wf()
        &&& !self.bids@.contains_key(bid_id)
        &&& forall|id: AccountId| #[trigger] self.bids@.contains_key(id) ==> self.bids@[id].wf()
        &&& forall|e: Entry|
            #[trigger] self.top_bets@.contains(e) <==> if e.1 == bid_id {
                b.bets@.len() > 0 && e.0 == b.spec_bet_price()
            } else {
                self.bids@.contains_key(e.1) && e.0 == self.bids@[e.1].spec_bet_price()
            }
        &&& forall|e: Entry|
            #[trigger] self.top_claims@.contains(e) ==> if e.1 == bid_id {
                e.0 == b.spec_claim_price()
            } else {
                self.bids@.contains_key(e.1) && self.bids@[e.1].claim_status is Some && e.0
                    == self.bids@[e.1].spec_claim_price()
            }
        &&& forall|e: Entry|
            self.bids@.contains_key(e.1) && self.bids@[e.1].claim_status is Some && e.0
                == self.bids@[e.1].spec_claim_price() ==> #[trigger] self.top_claims@.contains(e)
        &&& self.total_commission <= self.total_distributed
        &&& forall|p: AccountId| #[trigger]
            self.rewards@.contains_key(p) ==> self.rewards@[p] <= self.total_distributed
    }

    /// The leaderboards are well formed, and every bid but `id` is valid and
    /// mirrored by them exactly.
    closed spec fn mirrors_except(&self, id: AccountId) -> bool {
        &&& self.top_bets.wf()
        &&& self.top_claims.wf()
        &&& forall|i: AccountId|
            i != id && #[trigger] self.bids@.contains_key(i) ==> self.bids@[i].wf()
        &&& forall|e: Entry|
            e.1 != id ==> (#[trigger] self.top_bets@.contains(e) <==> (self.bids@.contains_key(e.1)
                && e.0 == self.bids@[e.1].spec_bet_price()))
        &&& forall|e: Entry|
            e.1 != id ==> (#[trigger] self.top_claims@.contains(e) <==> (self.bids@.contains_key(
                e.1,
            ) && self.bids@[e.1].claim_status is Some && e.0
                == self.bids@[e.1].spec_claim_price()))
    }

    /// An update confined to bid `id` keeps the leaderboards mirroring the
    /// bids, provided the entries of `id` itself mirror its new record.
    proof fn lemma_mirror_update(before: Contract, after: Contract, id: AccountId)
        requires
            before.mirrors_except(id),
            after.top_bets.wf(),
            after.top_claims.wf(),
            forall|i: AccountId|
                i != id ==> (#[trigger] after.bids@.contains_key(i) == before.bids@.contains_key(i)
                    && (before.bids@.contains_key(i) ==> after.bids@[i] == before.bids@[i])),
            forall|e: Entry|
                e.1 != id ==> (#[trigger] after.top_bets@.contains(e) == before.top_bets@.contains(
                    e,
                )),
            forall|e: Entry|
                e.1 != id ==> (#[trigger] after.top_claims@.contains(e)
                    == before.top_claims@.contains(e)),
            after.bids@.contains_key(id) ==> after.bids@[id].wf(),
            forall|e: Entry|
                e.1 == id ==> (#[trigger] after.top_bets@.contains(e) <==> (after.bids@.contains_key(
                    id,
                ) && e.0 == after.bids@[id].spec_bet_price())),
            forall|e: Entry|
                e.1 == id ==> (#[trigger] after.top_claims@.contains(e) <==> (
                after.bids@.contains_key(id) && after.bids@[id].claim_status is Some && e.0
                    == after.bids@[id].spec_claim_price())),
        ensures
            forall|i: AccountId| #[trigger] after.bids@.contains_key(i) ==> after.bids@[i].wf(),
            forall|e: Entry|
                #[trigger] after.top_bets@.contains(e) <==> (after.bids@.contains_key(e.1) && e.0
                    == after.bids@[e.1].spec_bet_price()),
            forall|e: Entry|
                #[trigger] after.top_claims@.contains(e) <==> (after.bids@.contains_key(e.1)
                    && after.bids@[e.1].claim_status is Some && e.0
                    == after.bids@[e.1].spec_claim_price()),
    {
        assert forall|i: AccountId| #[trigger] after.bids@.contains_key(i) implies after.bids@[
            i].wf() by {
            if i != id {
                assert(before.bids@.contains_key(i));
            }
        }
        assert forall|e: Entry|
            #[trigger] after.top_bets@.contains(e) <==> (after.bids@.contains_key(e.1) && e.0
                == after.bids@[e.1].spec_bet_price()) by {
            if e.1 != id {
                assert(after.bids@.contains_key(e.1) == before.bids@.contains_key(e.1));
                assert(before.top_bets@.contains(e) == after.top_bets@.contains(e));
            }
        }
        assert forall|e: Entry|
            #[trigger] after.top_claims@.contains(e) <==> (after.bids@.contains_key(e.1)
                && after.bids@[e.1].claim_status is Some && e.0
                == after.bids@[e.1].spec_claim_price()) by {
            if e.1 != id {
                assert(after.bids@.contains_key(e.1) == before.bids@.contains_key(e.1));
                assert(before.top_claims@.contains(e) == after.top_claims@.contains(e));
            }
        }
    }

    /// What `wf` gives a caller: every stored bid is valid (a non-empty
    /// history, a price that fits), each leaderboard mirrors the bids exactly,
    /// and no balance exceeds what was taken in.
    pub proof fn lemma_wf_reveal(&self)
        requires
            self.wf(),
        ensures
            forall|id: AccountId| #[trigger]
                self.bids().contains_key(id) ==> self.bids()[id].wf(),
            forall|e: Entry| #[trigger]
                self.top_bets().contains(e) <==> (self.bids().contains_key(e.1) && e.0
                    == self.bids()[e.1].spec_bet_price()),
            forall|e: Entry| #[trigger]
                self.top_claims().contains(e) <==> (self.bids().contains_key(e.1)
                    && self.bids()[e.1].claim_status is Some && e.0
                    == self.bids()[e.1].spec_claim_price()),
            0 <= self.commission() <= self.distributed() <= u128::MAX,
            forall|who: AccountId| 0 <= #[trigger] self.reward(who) <= self.distributed(),
    {
        assert forall|e: Entry| #[trigger]
            self.top_bets().contains(e) <==> (self.bids().contains_key(e.1) && e.0
                == self.bids()[e.1].spec_bet_price()) by {
            assert(self.top_bets@.contains(e) == self.top_bets().contains(e));
        }
        assert forall|e: Entry| #[trigger]
            self.top_claims().contains(e) <==> (self.bids().contains_key(e.1)
                && self.bids()[e.1].claim_status is Some && e.0
                == self.bids()[e.1].spec_claim_price()) by {
            assert(self.top_claims@.contains(e) == self.top_claims().contains(e));
        }
        assert forall|who: AccountId| 0 <= #[trigger] self.reward(who) <= self.distributed() by {
            if self.rewards@.contains_key(who) {
            }
        }
    }

    /// What `detached(bid_id, b)` says, over the public views: `bid_id` is not
    /// stored, every other bid is valid and mirrored by the leaderboards, the
    /// bet leaderboard holds an entry for `bid_id` exactly at `b`'s price when
    /// `b` has a history, a claim entry for `bid_id` can only be at `b`'s claim
    /// price, and no balance exceeds what was taken in.
    pub proof fn lemma_detached_reveal(&self, bid_id: AccountId, b: Bid)
        requires
            self.detached(bid_id, b),
        ensures
            !self.bids().contains_key(bid_id),
            forall|id: AccountId| #[trigger]
                self.bids().contains_key(id) ==> self.bids()[id].wf(),
            forall|e: Entry| #[trigger]
                self.top_bets().contains(e) <==> if e.1 == bid_id {
                    b.bets@.len() > 0 && e.0 == b.spec_bet_price()
                } else {
                    self.bids().contains_key(e.1) && e.0 == self.bids()[e.1].spec_bet_price()
                },
            forall|e: Entry| #[trigger]
                self.top_claims().contains(e) && e.1 == bid_id ==> e.0 == b.spec_claim_price(),
            forall|e: Entry|
                e.1 != bid_id ==> (#[trigger] self.top_claims().contains(e) <==> (
                self.bids().contains_key(e.1) && self.bids()[e.1].claim_status is Some && e.0
                    == self.bids()[e.1].spec_claim_price())),
            0 <= self.commission() <= self.distributed(),
            forall|who: AccountId| 0 <= #[trigger] self.reward(who) <= self.distributed(),
    {
        assert forall|e: Entry| #[trigger]
            self.top_bets().contains(e) <==> if e.1 == bid_id {
                b.bets@.len() > 0 && e.0 == b.spec_bet_price()
            } else {
                self.bids().contains_key(e.1) && e.0 == self.bids()[e.1].spec_bet_price()
            } by {
            assert(self.top_bets@.contains(e) == self.top_bets().contains(e));
        }
        assert forall|e: Entry|
            e.1 != bid_id implies (#[trigger] self.top_claims().contains(e) <==> (
            self.bids().contains_key(e.1) && self.bids()[e.1].claim_status is Some && e.0
                == self.bids()[e.1].spec_claim_price())) by {
            assert(self.top_claims@.contains(e) == self.top_claims().contains(e));
        }
        assert forall|who: AccountId| 0 <= #[trigger] self.reward(who) <= self.distributed() by {
            if self.rewards@.contains_key(who) {
            }
        }
    }

    /// A valid ledger is detached at any id it does not store, for a fresh bid
    /// (no history, no claim): the state `offer` hands to `bet_and_update_leaders`.
    pub proof fn lemma_detached_fresh(&self, bid_id: AccountId, b: Bid)
        requires
            self.wf(),
            !self.bids().contains_key(bid_id),
            b.bets@.len() == 0,
        ensures
            self.detached(bid_id, b),
    {
    }

    /// Everything but the commission pool is as in `other`.
    pub closed spec fn same_but_commission(&self, other: Self) -> bool {
        &&& self.bids == other.bids
        &&& self.profiles == other.profiles
        &&& self.rewards == other.rewards
        &&& self.top_bets == other.top_bets
        &&& self.top_claims == other.top_claims
        &&& self.total_distributed == other.total_distributed
        &&& self.acquisition_time == other.acquisition_time
    }

    /// An empty ledger whose claims have to age `acquisition_time` before finalizing.
    pub fn new(acquisition_time: u64) -> (r: Contract)
        ensures
            r.wf(),
            r.bids() == Map::<AccountId, Bid>::empty(),
            r.top_bets() == Set::<Entry>::empty(),
            r.top_claims() == Set::<Entry>::empty(),
            r.commission() == 0,
            r.distributed() == 0,
            r.window() == acquisition_time,
            forall|id: AccountId| #[trigger] r.profile(id) == ProfileView::empty(),
            forall|id: AccountId| #[trigger] r.reward(id) == 0,
    {
        Contract {
            bids: HashMap::new(),
            profiles: HashMap::new(),
            rewards: HashMap::new(),
            top_bets: Leaderboard::new(),
            top_claims: Leaderboard::new(),
            total_commission: 0,
            total_distributed: 0,
            acquisition_time,
        }
    }

    /// Credits `value` to the commission pool.
    pub fn update_commission(&mut self, value: Balance)
        requires
            old(self).commission() + value <= u128::MAX,
        ensures
            final(self).commission() == old(self).commission() + value,
            final(self).same_but_commission(*old(self)),
            final(self).bids() == old(self).bids(),
            forall|who: AccountId| #[trigger] final(self).profile(who) == old(self).profile(who),
            forall|who: AccountId| #[trigger] final(self).reward(who) == old(self).reward(who),
            final(self).top_bets() == old(self).top_bets(),
            final(self).top_claims() == old(self).top_claims(),
            final(self).distributed() == old(self).distributed(),
            final(self).window() == old(self).window(),
    {
        self.total_commission = self.total_commission + value;
    }

    /// Records `profile_id` as the newest entry of `bid`'s history and stores
    /// the bid. For a fresh bid (an offer) the offer deposit goes to commission
    /// and the bid enters the bet leaderboard at the initial price. Otherwise
    /// (a bet) the bid moves up the bet leaderboard by one escalation, leaves the
    /// claim leaderboard, a twentieth of the price goes to commission, and the
    /// rest is distributed over the earlier bettors by the decay rule.
    pub fn bet_and_update_leaders(
        &mut self,
        profile_id: &AccountId,
        bid_id: &AccountId,
        bid: Bid,
    )
        requires
            old(self).detached(*bid_id, bid),
            bid.participants@.no_duplicates(),
            bid.bets@.len() == 0 ==> forall|e: Entry| #[trigger]
                old(self).top_claims().contains(e) ==> e.1 != *bid_id,
            bid.claim_status is None,
            bid.bets@.len() < usize::MAX,
            bid.spec_bet_price() <= u128::MAX,
            bid.bets@.len() == 0 ==> old(self).distributed() + OFFER_DEPOSIT
                <= u128::MAX,
            bid.bets@.len() > 0 ==> old(self).distributed() + bid.spec_bet_price()
                <= u128::MAX,
            bid.bets@.len() > 0 ==> escalated(bid.spec_bet_price()) <= u128::MAX,
        ensures
            final(self).wf(),
            final(self).bids() == old(self).bids().insert(
                *bid_id,
                Bid { bets: final(self).bids()[*bid_id].bets, ..bid },
            ),
            final(self).bids()[*bid_id].bets@ == bid.bets@.push(*profile_id),
            forall|who: AccountId| #[trigger] final(self).profile(who) == old(self).profile(who),
            final(self).window() == old(self).window(),
            forall|e: Entry| #[trigger]
                final(self).top_bets().contains(e) <==> if e.1 == *bid_id {
                    e.0 == bet_price_for(bid.bets@.len() + 1)
                } else {
                    old(self).top_bets().contains(e)
                },
            bid.bets@.len() == 0 ==> {
                &&& final(self).top_claims() == old(self).top_claims()
                &&& final(self).commission() == old(self).commission() + OFFER_DEPOSIT
                &&& final(self).distributed() == old(self).distributed() + OFFER_DEPOSIT
                &&& forall|who: AccountId| #[trigger]
                    final(self).reward(who) == old(self).reward(who)
            },
            bid.bets@.len() > 0 ==> {
                let p = bid.spec_bet_price();
                &&& forall|e: Entry| #[trigger]
                    final(self).top_claims().contains(e) <==> (old(self).top_claims().contains(e)
                        && e.1 != *bid_id)
                &&& final(self).commission() == old(self).commission() + commission_of(p)
                &&& final(self).distributed() == old(self).distributed() + p
                &&& forall|who: AccountId| #[trigger]
                    final(self).reward(who) == old(self).reward(who) + payout(
                        bid.bets@,
                        p - commission_of(p),
                        who,
                    )
            },
    {
        let ghost bid0 = bid;
        let mut bid = bid;
        let mut bet_price = bid.calculate_bet_price();
        let ghost bets = bid.bets@;
        let ghost old_rewards = self.rewards@;
        let ghost old_distributed = self.total_distributed as int;
        if bid.bets.len() == 0 {
            // An offer
            self.total_distributed = self.total_distributed + OFFER_DEPOSIT;
            self.update_commission(OFFER_DEPOSIT);
        } else {
            // A bet
            proof {
                lemma_price_after_increases((bets.len() - 1) as nat);
            }
            let removed = self.top_bets.remove(&(bet_price, *bid_id));
            assert(removed);
            if bet_price <= u128::MAX / 2 {
                self.top_claims.remove(&(bet_price * 2, *bid_id));
            }
            assert forall|e: Entry| #[trigger]
                self.top_claims@.contains(e) <==> (old(self).top_claims@.contains(e) && e.1
                    != *bid_id) by {
                if old(self).top_claims@.contains(e) && e.1 == *bid_id {
                    assert(e.0 == 2 * bet_price);
                }
            }
            let ghost tc0 = self.top_claims;
            let ghost tb0 = self.top_bets;
            let ghost bids0 = self.bids;
            self.total_distributed = self.total_distributed + bet_price;
            let commission = bet_price / INV_COMMISSION;
            self.update_commission(commission);
            let ghost r0 = (bet_price - commission) as int;
            let mut paid: Balance = bet_price - commission;
            let n = bid.bets.len();
            let mut i: usize = n;
            assert(bets.take(n as int) =~= bets);
            while i > 0
                invariant
                    i <= n,
                    n == bets.len(),
                    bid.bets@ == bets,
                    r0 == bet_price - commission_of(bet_price as int),
                    paid == decay_left(r0, (n - i) as nat),
                    0 <= paid <= r0,
                    old_distributed + bet_price <= u128::MAX,
                    self.total_distributed == old_distributed + bet_price,
                    forall|who: AccountId| #[trigger]
                        reward_in(self.rewards@, who) + decay_paid_to(
                            bets.take(i as int),
                            paid as int,
                            who,
                        ) == reward_in(old_rewards, who) + decay_paid_to(bets, r0, who),
                    forall|who: AccountId| #[trigger]
                        self.rewards@.contains_key(who) ==> self.rewards@[who] <= old_distributed
                            + commission_of(bet_price as int) + (r0 - paid),
                    forall|who: AccountId| #[trigger]
                        old_rewards.contains_key(who) ==> old_rewards[who] <= old_distributed,
                    self.top_claims == tc0,
                    forall|e: Entry| #[trigger]
                        tc0@.contains(e) <==> (old(self).top_claims@.contains(e) && e.1
                            != *bid_id),
                    self.total_distributed as int == old(self).total_distributed + bet_price,
                    self.top_bets == tb0,
                    self.bids == bids0,
                    self.total_commission as int == old(self).total_commission
                        + commission_of(bet_price as int),
                    self.profiles == old(self).profiles,
                    self.acquisition_time == old(self).acquisition_time,
                decreases i,
            {
                i = i - 1;
                let who = bid.bets[i];
                proof {
                    lemma_decay_share_bounded(paid as int);
                    let t = bets.take(i + 1);
                    assert(t.last() == who);
                    assert(t.drop_last() =~= bets.take(i as int));
                }
                let share = paid / INV_REWARD_DECAY_MULT_100 * 100;
                let ghost prev = self.rewards@;
                update_reward(&mut self.rewards, who, share);
                proof {
                    assert forall|x: AccountId| #[trigger]
                        reward_in(self.rewards@, x) + decay_paid_to(
                            bets.take(i as int),
                            paid - share,
                            x,
                        ) == reward_in(old_rewards, x) + decay_paid_to(bets, r0, x) by {
                        assert(reward_in(prev, x) + decay_paid_to(bets.take(i + 1), paid as int, x)
                            == reward_in(old_rewards, x) + decay_paid_to(bets, r0, x));
                    }
                    assert forall|x: AccountId| #[trigger]
                        self.rewards@.contains_key(x) implies self.rewards@[x] <= old_distributed
                            + commission_of(bet_price as int) + (r0 - (paid - share)) by {
                        assert(share == decay_share(paid as int));
                        assert(0 <= share <= paid);
                        assert(commission_of(bet_price as int) >= 0);
                        if x != who {
                            assert(prev.contains_key(x));
                        } else if prev.contains_key(x) {
                            assert(prev[x] <= old_distributed + commission_of(bet_price as int) + (
                            r0 - paid));
                        }
                    }
                }
                paid = paid - share;
            }
            assert(bets.take(0) =~= Seq::<AccountId>::empty());
            let ghost prev = self.rewards@;
            update_reward(&mut self.rewards, bid.bets[0], paid);
            proof {
                assert forall|who: AccountId| #[trigger]
                    reward_in(self.rewards@, who) == reward_in(old_rewards, who) + payout(
                        bets,
                        r0,
                        who,
                    ) by {
                    assert(reward_in(prev, who) + decay_paid_to(bets.take(0), paid as int, who)
                        == reward_in(old_rewards, who) + decay_paid_to(bets, r0, who));
                    assert(decay_paid_to(bets.take(0), paid as int, who) == 0);
                }
                assert forall|who: AccountId| #[trigger]
                    self.rewards@.contains_key(who) implies self.rewards@[who]
                        <= self.total_distributed by {
                    if who != bets[0] {
                        assert(prev.contains_key(who));
                    }
                }
            }
            bet_price = bet_price + bet_price / 5;
        }
        bid.bets.push(*profile_id);
        proof {
            if bets.len() > 0 {
                lemma_price_after_increases((bets.len() - 1) as nat);
            }
            assert(bet_price == bet_price_for(bets.len() + 1));
            assert(bid.wf());
        }
        self.top_bets.insert((bet_price, *bid_id));
        let ghost stored = bid;
        self.bids.insert(*bid_id, bid);
        proof {
            assert(self.bids@[*bid_id] == stored);
            assert forall|e: Entry|
                e.1 != *bid_id implies (#[trigger] self.top_claims@.contains(e)
                    == old(self).top_claims@.contains(e)) by {
            }
            assert forall|e: Entry| e.1 == *bid_id implies !#[trigger] self.top_claims@.contains(e) by {
                if bets.len() == 0 {
                    assert(!old(self).top_claims().contains(e));
                }
            }
            assert forall|e: Entry|
                e.1 != *bid_id implies (#[trigger] old(self).top_claims@.contains(e) <==> (
                old(self).bids@.contains_key(e.1) && old(self).bids@[e.1].claim_status is Some
                    && e.0 == old(self).bids@[e.1].spec_claim_price())) by {
                if old(self).bids@.contains_key(e.1) && old(self).bids@[e.1].claim_status is Some
                    && e.0 == old(self).bids@[e.1].spec_claim_price() {
                    assert(old(self).top_claims@.contains(e));
                }
            }
            Self::lemma_mirror_update(*old(self), *self, *bid_id);
            assert(self.bids() =~= old(self).bids().insert(
                *bid_id,
                Bid { bets: self.bids()[*bid_id].bets, ..bid0 },
            ));
        }
    }

    /// Offers the calling account `predecessor` for acquisition, naming
    /// `profile_id` as the beneficiary. The whole offer deposit goes to commission.
    pub fn offer(
        &mut self,
        profile_id: AccountId,
        predecessor: AccountId,
        attached_deposit: Balance,
    ) -> (r: Result<(), LedgerError>)
        requires
            old(self).wf(),
        ensures
            final(self).wf(),
            final(self).window() == old(self).window(),
            attached_deposit < OFFER_DEPOSIT ==> r == Err::<(), _>(
                LedgerError::OfferDepositNotEnough,
            ),
            attached_deposit >= OFFER_DEPOSIT && predecessor == profile_id ==> r == Err::<(), _>(
                LedgerError::GainerSameAsOffer,
            ),
            attached_deposit >= OFFER_DEPOSIT && predecessor != profile_id && old(
                self,
            ).bids().contains_key(predecessor) ==> r == Err::<(), _>(LedgerError::AlreadyOffered),
            r == Err::<(), _>(LedgerError::Overflow) <==> (attached_deposit >= OFFER_DEPOSIT
                && predecessor != profile_id && !old(self).bids().contains_key(predecessor) && (old(
                self,
            ).profile(profile_id).num_offers == u64::MAX || old(self).distributed()
                + OFFER_DEPOSIT > u128::MAX)),
            r is Ok <==> (attached_deposit >= OFFER_DEPOSIT && predecessor != profile_id && !old(
                self,
            ).bids().contains_key(predecessor) && old(self).profile(profile_id).num_offers
                < u64::MAX && old(self).distributed() + OFFER_DEPOSIT <= u128::MAX),
            r is Err ==> *final(self) == *old(self),
            r is Ok ==> {
                let b = final(self).bids()[predecessor];
                let pv = old(self).profile(profile_id);
                &&& final(self).bids() == old(self).bids().insert(predecessor, b)
                &&& b.bets@ == seq![profile_id]
                &&& b.participant_set() == set![profile_id]
                &&& b.claim_status is None
                &&& final(self).profile(profile_id) == ProfileView {
                    num_offers: (pv.num_offers + 1) as u64,
                    participation: pv.participation.insert(predecessor),
                    ..pv
                }
                &&& forall|who: AccountId|
                    who != profile_id ==> #[trigger] final(self).profile(who) == old(
                        self,
                    ).profile(who)
                &&& forall|e: Entry| #[trigger]
                    final(self).top_bets().contains(e) <==> if e.1 == predecessor {
                        e.0 == INIT_BET_PRICE
                    } else {
                        old(self).top_bets().contains(e)
                    }
                &&& final(self).top_claims() == old(self).top_claims()
                &&& final(self).commission() == old(self).commission() + OFFER_DEPOSIT
                &&& final(self).distributed() == old(self).distributed() + OFFER_DEPOSIT
                &&& forall|who: AccountId| #[trigger]
                    final(self).reward(who) == old(self).reward(who)
            },
    {
        if attached_deposit < OFFER_DEPOSIT {
            return Err(LedgerError::OfferDepositNotEnough);
        }
        if predecessor == profile_id {
            return Err(LedgerError::GainerSameAsOffer);
        }
        if self.bids.contains_key(&predecessor) {
            return Err(LedgerError::AlreadyOffered);
        }
        let num_offers = match self.profiles.get(&profile_id) {
            Some(p) => p.num_offers,
            None => 0,
        };
        if num_offers == u64::MAX || self.total_distributed > u128::MAX - OFFER_DEPOSIT {
            return Err(LedgerError::Overflow);
        }
        // Create the bid
        let mut bid = Bid { bets: Vec::new(), participants: Vec::new(), claim_status: None };
        bid.add_participant(profile_id);
        // Update the beneficiary's profile
        let mut profile = extract_profile_or_create(&mut self.profiles, profile_id);
        profile.num_offers = profile.num_offers + 1;
        profile.participation.insert(predecessor);
        save_profile(&mut self.profiles, profile_id, profile);
        proof {
            assert(bid.participant_set() =~= set![profile_id]);
            assert forall|e: Entry| #[trigger] self.top_claims().contains(e) implies e.1
                != predecessor by {
            }
        }
        // Update the leaderboards
        self.bet_and_update_leaders(&profile_id, &predecessor, bid);
        proof {
            assert(self.bids()[predecessor].bets@ =~= seq![profile_id]);
            assert(self.top_claims() =~= old(self).top_claims());
        }
        Ok(())
    }

    /// A bet by `predecessor` on bid `bid_id` at time `block_timestamp`. The
    /// deposit has to cover the bet price plus `forfeit`, the surcharge that the
    /// caller's forfeit policy sets (zero where none applies). A bet supersedes
    /// any pending claim.
    pub fn bet(
        &mut self,
        bid_id: AccountId,
        predecessor: AccountId,
        attached_deposit: Balance,
        block_timestamp: Timestamp,
        forfeit: Balance,
    ) -> (r: Result<(), LedgerError>)
        requires
            old(self).wf(),
        ensures
            final(self).wf(),
            final(self).window() == old(self).window(),
            !old(self).bids().contains_key(bid_id) ==> r == Err::<(), _>(LedgerError::BidNotFound),
            old(self).bids().contains_key(bid_id) ==> {
                let b = old(self).bids()[bid_id];
                let p = b.spec_bet_price();
                let pv = old(self).profile(predecessor);
                let overflow = escalated(p) > u128::MAX || old(self).distributed() + p > u128::MAX
                    || pv.num_bets == u64::MAX || pv.bets_volume + p > u128::MAX || b.bets@.len()
                    == usize::MAX;
                &&& b.spec_on_acquisition(old(self).window(), block_timestamp) ==> r == Err::<
                    (),
                    _,
                >(LedgerError::BetOnAcquisition)
                &&& !b.spec_on_acquisition(old(self).window(), block_timestamp)
                    && attached_deposit < p + forfeit ==> r == Err::<(), _>(
                    LedgerError::BetForfeitNotEnough,
                )
                &&& !b.spec_on_acquisition(old(self).window(), block_timestamp)
                    && attached_deposit >= p + forfeit && overflow ==> r == Err::<(), _>(
                    LedgerError::Overflow,
                )
                &&& r is Ok <==> (!b.spec_on_acquisition(old(self).window(), block_timestamp)
                    && attached_deposit >= p + forfeit && !overflow)
                &&& r is Ok ==> {
                    let nb = final(self).bids()[bid_id];
                    &&& final(self).bids() == old(self).bids().insert(bid_id, nb)
                    &&& nb.bets@ == b.bets@.push(predecessor)
                    &&& nb.participant_set() == b.participant_set().insert(predecessor)
                    &&& nb.claim_status is None
                    &&& final(self).profile(predecessor) == ProfileView {
                        num_bets: (pv.num_bets + 1) as u64,
                        bets_volume: (pv.bets_volume + p) as u128,
                        participation: pv.participation.insert(bid_id),
                        ..pv
                    }
                    &&& forall|who: AccountId|
                        who != predecessor ==> #[trigger] final(self).profile(who) == old(
                            self,
                        ).profile(who)
                    &&& forall|e: Entry| #[trigger]
                        final(self).top_bets().contains(e) <==> if e.1 == bid_id {
                            e.0 == escalated(p)
                        } else {
                            old(self).top_bets().contains(e)
                        }
                    &&& forall|e: Entry| #[trigger]
                        final(self).top_claims().contains(e) <==> (old(self).top_claims().contains(
                            e,
                        ) && e.1 != bid_id)
                    &&& final(self).commission() == old(self).commission() + commission_of(p)
                    &&& final(self).distributed() == old(self).distributed() + p
                    &&& forall|who: AccountId| #[trigger]
                        final(self).reward(who) == old(self).reward(who) + payout(
                            b.bets@,
                            p - commission_of(p),
                            who,
                        )
                }
            },
            r is Err ==> *final(self) == *old(self),
    {
        let (bet_price, n) = match self.bids.get(&bid_id) {
            None => {
                return Err(LedgerError::BidNotFound);
            },
            Some(bid) => {
                if bid.on_acquisition(&self.acquisition_time, block_timestamp) {
                    return Err(LedgerError::BetOnAcquisition);
                }
                (bid.calculate_bet_price(), bid.bets.len())
            },
        };
        if attached_deposit < bet_price || attached_deposit - bet_price < forfeit {
            return Err(LedgerError::BetForfeitNotEnough);
        }
        let (num_bets, bets_volume) = match self.profiles.get(&predecessor) {
            Some(p) => (p.num_bets, p.bets_volume),
            None => (0, 0),
        };
        if bet_price > u128::MAX - bet_price / 5 || self.total_distributed > u128::MAX - bet_price
            || num_bets == u64::MAX || bets_volume > u128::MAX - bet_price || n == usize::MAX {
            proof {
                lemma_price_after_increases((n - 1) as nat);
                lemma_escalation_increases(bet_price as int);
            }
            return Err(LedgerError::Overflow);
        }
        proof {
            lemma_price_after_increases((n - 1) as nat);
            lemma_escalation_increases(bet_price as int);
        }
        // Update the bid
        let ghost b = self.bids@[bid_id];
        let mut bid = match self.bids.remove(&bid_id) {
            Some(bid) => bid,
            None => {
                return Err(LedgerError::BidNotFound);
            },
        };
        bid.claim_status = None;
        bid.add_participant(predecessor);
        // Update the bettor's profile
        let mut profile = extract_profile_or_create(&mut self.profiles, predecessor);
        profile.num_bets = profile.num_bets + 1;
        profile.bets_volume = profile.bets_volume + bet_price;
        profile.participation.insert(bid_id);
        save_profile(&mut self.profiles, predecessor, profile);
        proof {
            assert(self.detached(bid_id, bid)) by {
                assert forall|e: Entry| #[trigger] self.top_claims@.contains(e) implies if e.1
                    == bid_id {
                    e.0 == bid.spec_claim_price()
                } else {
                    self.bids@.contains_key(e.1) && self.bids@[e.1].claim_status is Some && e.0
                        == self.bids@[e.1].spec_claim_price()
                } by {
                    assert(old(self).bids@.contains_key(e.1));
                }
                assert forall|e: Entry| #[trigger] self.top_bets@.contains(e) <==> if e.1
                    == bid_id {
                    bid.bets@.len() > 0 && e.0 == bid.spec_bet_price()
                } else {
                    self.bids@.contains_key(e.1) && e.0 == self.bids@[e.1].spec_bet_price()
                } by {
                    if e.1 != bid_id {
                        assert(self.bids@.contains_key(e.1) == old(self).bids@.contains_key(e.1));
                    }
                }
                assert forall|e: Entry|
                    self.bids@.contains_key(e.1) && self.bids@[e.1].claim_status is Some && e.0
                        == self.bids@[e.1].spec_claim_price() implies #[trigger] self.top_claims@.contains(e) by {
                    assert(old(self).bids@.contains_key(e.1));
                }
                assert forall|id: AccountId| #[trigger] self.bids@.contains_key(id) implies self.bids@[
                    id].wf() by {
                    assert(old(self).bids@.contains_key(id));
                }
            }
        }
        // Update the leaderboards and distribute the price
        self.bet_and_update_leaders(&predecessor, &bid_id, bid);
        Ok(())
    }

    /// A claim by `predecessor` on bid `bid_id` at time `block_timestamp`; the
    /// deposit has to cover the claim price, twice the price of the next bet.
    pub fn claim(
        &mut self,
        bid_id: AccountId,
        predecessor: AccountId,
        attached_deposit: Balance,
        block_timestamp: Timestamp,
    ) -> (r: Result<(), LedgerError>)
        requires
            old(self).wf(),
        ensures
            final(self).wf(),
            final(self).window() == old(self).window(),
            !old(self).bids().contains_key(bid_id) ==> r == Err::<(), _>(LedgerError::BidNotFound),
            old(self).bids().contains_key(bid_id) ==> {
                let b = old(self).bids()[bid_id];
                let c = b.spec_claim_price();
                let pv = old(self).profile(predecessor);
                &&& b.claim_status is Some ==> r == Err::<(), _>(LedgerError::AlreadyClaimed)
                &&& b.claim_status is None && attached_deposit < c ==> r == Err::<(), _>(
                    LedgerError::ClaimNotEnough,
                )
                &&& b.claim_status is None && attached_deposit >= c && pv.num_claims == u64::MAX
                    ==> r == Err::<(), _>(LedgerError::Overflow)
                &&& r is Ok <==> (b.claim_status is None && attached_deposit >= c && pv.num_claims
                    < u64::MAX)
                &&& r is Ok ==> {
                    let nb = final(self).bids()[bid_id];
                    &&& final(self).bids() == old(self).bids().insert(bid_id, nb)
                    &&& nb.bets == b.bets
                    &&& nb.participant_set() == b.participant_set().insert(predecessor)
                    &&& nb.claim_status == Some((predecessor, block_timestamp))
                    &&& final(self).profile(predecessor) == ProfileView {
                        num_claims: (pv.num_claims + 1) as u64,
                        participation: pv.participation.insert(bid_id),
                        ..pv
                    }
                    &&& forall|who: AccountId|
                        who != predecessor ==> #[trigger] final(self).profile(who) == old(
                            self,
                        ).profile(who)
                    &&& final(self).top_bets() == old(self).top_bets()
                    &&& final(self).top_claims() == old(self).top_claims().insert(
                        (c as u128, bid_id),
                    )
                    &&& final(self).commission() == old(self).commission()
                    &&& final(self).distributed() == old(self).distributed()
                    &&& forall|who: AccountId| #[trigger]
                        final(self).reward(who) == old(self).reward(who)
                }
            },
            r is Err ==> *final(self) == *old(self),
    {
        let bet_price = match self.bids.get(&bid_id) {
            None => {
                return Err(LedgerError::BidNotFound);
            },
            Some(bid) => {
                if bid.claim_status.is_some() {
                    return Err(LedgerError::AlreadyClaimed);
                }
                bid.calculate_bet_price()
            },
        };
        if bet_price > u128::MAX / 2 || attached_deposit < bet_price * 2 {
            return Err(LedgerError::ClaimNotEnough);
        }
        let claim_price = bet_price * 2;
        let num_claims = match self.profiles.get(&predecessor) {
            Some(p) => p.num_claims,
            None => 0,
        };
        if num_claims == u64::MAX {
            return Err(LedgerError::Overflow);
        }
        // Update the bid
        let mut bid = match self.bids.remove(&bid_id) {
            Some(bid) => bid,
            None => {
                return Err(LedgerError::BidNotFound);
            },
        };
        bid.claim_status = Some((predecessor, block_timestamp));
        bid.add_participant(predecessor);
        let ghost nb = bid;
        self.bids.insert(bid_id, bid);
        // Update the claimant's profile
        let mut profile = extract_profile_or_create(&mut self.profiles, predecessor);
        profile.num_claims = profile.num_claims + 1;
        profile.participation.insert(bid_id);
        save_profile(&mut self.profiles, predecessor, profile);
        // Update the claim leaderboard
        self.top_claims.insert((claim_price, bid_id));
        proof {
            assert(self.bids@[bid_id] == nb);
            assert forall|e: Entry| e.1 == bid_id implies (#[trigger] self.top_claims@.contains(e)
                <==> e.0 == claim_price) by {
                assert(!old(self).top_claims@.contains(e));
            }
            Self::lemma_mirror_update(*old(self), *self, bid_id);
        }
        Ok(())
    }

    /// Takes bid `bid_id` out of the participation of each of `bid`'s participants.
    pub fn update_final_rewards(&mut self, bid_id: &AccountId, bid: &Bid)
        ensures
            final(self).same_but_profiles(*old(self)),
            final(self).bids() == old(self).bids(),
            forall|who: AccountId| #[trigger] final(self).reward(who) == old(self).reward(who),
            final(self).top_bets() == old(self).top_bets(),
            final(self).top_claims() == old(self).top_claims(),
            final(self).commission() == old(self).commission(),
            final(self).distributed() == old(self).distributed(),
            final(self).window() == old(self).window(),
            forall|who: AccountId| #[trigger]
                final(self).profile(who) == if bid.participant_set().contains(who) {
                    ProfileView {
                        participation: old(self).profile(who).participation.remove(*bid_id),
                        ..old(self).profile(who)
                    }
                } else {
                    old(self).profile(who)
                },
    {
        let mut i: usize = 0;
        while i < bid.participants.len()
            invariant
                i <= bid.participants@.len(),
                self.same_but_profiles(*old(self)),
                forall|who: AccountId| #[trigger]
                    self.profile(who) == if bid.participants@.take(i as int).contains(who) {
                        ProfileView {
                            participation: old(self).profile(who).participation.remove(*bid_id),
                            ..old(self).profile(who)
                        }
                    } else {
                        old(self).profile(who)
                    },
            decreases bid.participants@.len() - i,
        {
            let profile_id = bid.participants[i];
            let ghost before = self.profiles@;
            let ghost s0 = self.profile(profile_id);
            let ghost self0 = *self;
            let mut profile = extract_profile_or_create(&mut self.profiles, profile_id);
            let ghost pv0 = profile@;
            profile.participation.remove(bid_id);
            let ghost pv1 = profile@;
            save_profile(&mut self.profiles, profile_id, profile);
            proof {
                assert(pv0 == s0);
                assert(pv1.participation == pv0.participation.remove(*bid_id));
                assert(pv0.participation.remove(*bid_id) =~= old(self).profile(
                    profile_id,
                ).participation.remove(*bid_id));
                let t = bid.participants@.take(i as int);
                let t1 = bid.participants@.take(i + 1);
                assert(t1 =~= t.push(profile_id));
                assert forall|who: AccountId| #[trigger] t1.contains(who) <==> t.contains(who)
                    || who == profile_id by {
                    if t1.contains(who) && who != profile_id {
                        let j = t1.index_of(who);
                        assert(t[j] == who);
                    }
                    if t.contains(who) {
                        let j = t.index_of(who);
                        assert(t1[j] == who);
                    }
                    if who == profile_id {
                        assert(t1[i as int] == who);
                    }
                }
                assert(self.profile(profile_id) == pv1);
                assert forall|who: AccountId| #[trigger]
                    self.profile(who) == if t1.contains(who) {
                        ProfileView {
                            participation: old(self).profile(who).participation.remove(*bid_id),
                            ..old(self).profile(who)
                        }
                    } else {
                        old(self).profile(who)
                    } by {
                    if who != profile_id {
                        assert(self.profile(who) == self0.profile(who));
                    }
                }
                assert(self.profile(profile_id).participation =~= old(self).profile(
                    profile_id,
                ).participation.remove(*bid_id));
            }
            i = i + 1;
        }
        assert(bid.participants@.take(i as int) =~= bid.participants@);
    }

    /// Everything but the profiles is as in `other`.
    pub closed spec fn same_but_profiles(&self, other: Self) -> bool {
        &&& self.bids == other.bids
        &&& self.rewards == other.rewards
        &&& self.top_bets == other.top_bets
        &&& self.top_claims == other.top_claims
        &&& self.total_commission == other.total_commission
        &&& self.total_distributed == other.total_distributed
        &&& self.acquisition_time == other.acquisition_time
    }

    /// Finalizes bid `bid_id` at time `block_timestamp`, once its claim has aged
    /// past the acquisition window: the claimant is granted the right to acquire
    /// the account, every participant's stake in the bid ends, and the bid leaves
    /// both leaderboards and the store.
    pub fn finalize(&mut self, bid_id: AccountId, block_timestamp: Timestamp) -> (r: Result<
        (),
        LedgerError,
    >)
        requires
            old(self).wf(),
        ensures
            final(self).wf(),
            final(self).window() == old(self).window(),
            !old(self).bids().contains_key(bid_id) ==> r == Err::<(), _>(LedgerError::BidNotFound),
            old(self).bids().contains_key(bid_id) ==> {
                let b = old(self).bids()[bid_id];
                &&& !b.spec_on_acquisition(old(self).window(), block_timestamp) ==> r == Err::<
                    (),
                    _,
                >(LedgerError::NotOnAcquisition)
                &&& r is Ok <==> b.spec_on_acquisition(old(self).window(), block_timestamp)
                &&& r is Ok ==> {
                    let claimant = b.claim_status->Some_0.0;
                    &&& final(self).bids() == old(self).bids().remove(bid_id)
                    &&& forall|who: AccountId| #[trigger]
                        final(self).profile(who) == ProfileView {
                            participation: if b.participant_set().contains(who) {
                                old(self).profile(who).participation.remove(bid_id)
                            } else {
                                old(self).profile(who).participation
                            },
                            acquisitions: if who == claimant {
                                old(self).profile(who).acquisitions.insert(bid_id)
                            } else {
                                old(self).profile(who).acquisitions
                            },
                            ..old(self).profile(who)
                        }
                    &&& forall|e: Entry| #[trigger]
                        final(self).top_bets().contains(e) <==> (old(self).top_bets().contains(e)
                            && e.1 != bid_id)
                    &&& forall|e: Entry| #[trigger]
                        final(self).top_claims().contains(e) <==> (old(self).top_claims().contains(
                            e,
                        ) && e.1 != bid_id)
                    &&& final(self).commission() == old(self).commission()
                    &&& final(self).distributed() == old(self).distributed()
                    &&& forall|who: AccountId| #[trigger]
                        final(self).reward(who) == old(self).reward(who)
                }
            },
            r is Err ==> *final(self) == *old(self),
    {
        let claimant = match self.bids.get(&bid_id) {
            None => {
                return Err(LedgerError::BidNotFound);
            },
            Some(bid) => {
                if !bid.on_acquisition(&self.acquisition_time, block_timestamp) {
                    return Err(LedgerError::NotOnAcquisition);
                }
                match bid.claim_status {
                    Some((claimant, _)) => claimant,
                    None => {
                        return Err(LedgerError::NotOnAcquisition);
                    },
                }
            },
        };
        let bid = match self.bids.remove(&bid_id) {
            Some(bid) => bid,
            None => {
                return Err(LedgerError::BidNotFound);
            },
        };
        let ghost mid = *self;
        // Grant the claimant the right to acquire
        let mut profile = extract_profile_or_create(&mut self.profiles, claimant);
        profile.acquisitions.insert(bid_id);
        save_profile(&mut self.profiles, claimant, profile);
        let ghost granted = *self;
        // End every participant's stake
        self.update_final_rewards(&bid_id, &bid);
        let ghost ended = *self;
        // Update the leaderboards
        let bet_price = bid.calculate_bet_price();
        let claim_price = bid.force_calculate_claim_price();
        self.top_bets.remove(&(bet_price, bid_id));
        self.top_claims.remove(&(claim_price, bid_id));
        proof {
            assert forall|who: AccountId| #[trigger]
                self.profile(who) == ProfileView {
                    participation: if bid.participant_set().contains(who) {
                        old(self).profile(who).participation.remove(bid_id)
                    } else {
                        old(self).profile(who).participation
                    },
                    acquisitions: if who == claimant {
                        old(self).profile(who).acquisitions.insert(bid_id)
                    } else {
                        old(self).profile(who).acquisitions
                    },
                    ..old(self).profile(who)
                } by {
                assert(mid.profile(who) == old(self).profile(who));
                assert(self.profile(who) == ended.profile(who));
                assert(ended.profile(who) == if bid.participant_set().contains(who) {
                    ProfileView {
                        participation: granted.profile(who).participation.remove(bid_id),
                        ..granted.profile(who)
                    }
                } else {
                    granted.profile(who)
                });
                if who != claimant {
                    assert(granted.profile(who) == mid.profile(who));
                } else {
                    assert(granted.profile(who) == ProfileView {
                        acquisitions: mid.profile(who).acquisitions.insert(bid_id),
                        ..mid.profile(who)
                    });
                }
            }
            Self::lemma_mirror_update(*old(self), *self, bid_id);
        }
        Ok(())
    }

    /// Uses the right of `predecessor` to acquire bid `bid_id`. On success the
    /// right is consumed and `new_public_key` is handed back: it is the credential
    /// that key management installs on the acquired account.
    pub fn acquire(&mut self, bid_id: AccountId, predecessor: AccountId, new_public_key: Vec<u8>) -> (r:
        Result<Vec<u8>, LedgerError>)
        requires
            old(self).wf(),
        ensures
            final(self).wf(),
            ({
                let pv = old(self).profile(predecessor);
                &&& !pv.acquisitions.contains(bid_id) ==> r == Err::<Vec<u8>, _>(
                    LedgerError::AcquireRejected,
                )
                &&& pv.acquisitions.contains(bid_id) && pv.num_acquisitions == u64::MAX ==> r
                    == Err::<Vec<u8>, _>(LedgerError::Overflow)
                &&& r is Ok <==> (pv.acquisitions.contains(bid_id) && pv.num_acquisitions
                    < u64::MAX)
                &&& r is Ok ==> {
                    &&& r->Ok_0@ == new_public_key@
                    &&& final(self).profile(predecessor) == ProfileView {
                        num_acquisitions: (pv.num_acquisitions + 1) as u64,
                        acquisitions: pv.acquisitions.remove(bid_id),
                        ..pv
                    }
                    &&& forall|who: AccountId|
                        who != predecessor ==> #[trigger] final(self).profile(who) == old(
                            self,
                        ).profile(who)
                    &&& final(self).same_but_profiles(*old(self))
                    &&& final(self).bids() == old(self).bids()
                    &&& forall|who: AccountId| #[trigger]
                        final(self).reward(who) == old(self).reward(who)
                    &&& final(self).top_bets() == old(self).top_bets()
                    &&& final(self).top_claims() == old(self).top_claims()
                    &&& final(self).commission() == old(self).commission()
                    &&& final(self).distributed() == old(self).distributed()
                    &&& final(self).window() == old(self).window()
                }
            }),
            r is Err ==> *final(self) == *old(self),
    {
        let (granted, num_acquisitions) = match self.profiles.get(&predecessor) {
            Some(p) => (p.acquisitions.contains(&bid_id), p.num_acquisitions),
            None => (false, 0),
        };
        if !granted {
            return Err(LedgerError::AcquireRejected);
        }
        if num_acquisitions == u64::MAX {
            return Err(LedgerError::Overflow);
        }
        let mut profile = extract_profile_or_create(&mut self.profiles, predecessor);
        profile.acquisitions.remove(&bid_id);
        profile.num_acquisitions = profile.num_acquisitions + 1;
        save_profile(&mut self.profiles, predecessor, profile);
        proof {
            assert(self.profile(predecessor).acquisitions =~= old(self).profile(
                predecessor,
            ).acquisitions.remove(bid_id));
        }
        Ok(new_public_key)
    }

    /// The commission pool.
    pub fn get_total_commission(&self) -> (r: Balance)
        ensures
            r == self.commission(),
    {
        self.total_commission
    }

    /// The reward balance of `id`.
    pub fn get_reward(&self, id: AccountId) -> (r: Balance)
        requires
            self.wf(),
        ensures
            r == self.reward(id),
    {
        match self.rewards.get(&id) {
            Some(v) => *v,
            None => 0,
        }
    }

    /// The price of the next bet on `bid_id`, if the bid is live.
    pub fn get_bet_price(&self, bid_id: AccountId) -> (r: Option<Balance>)
        requires
            self.wf(),
        ensures
            match r {
                Some(p) => self.bids().contains_key(bid_id) && p == self.bids()[bid_id].spec_bet_price(),
                None => !self.bids().contains_key(bid_id),
            },
    {
        match self.bids.get(&bid_id) {
            Some(bid) => Some(bid.calculate_bet_price()),
            None => None,
        }
    }

    /// The history of `bid_id`, if the bid is live.
    pub fn get_bets(&self, bid_id: AccountId) -> (r: Option<Vec<AccountId>>)
        ensures
            match r {
                Some(v) => self.bids().contains_key(bid_id) && v@ == self.bids()[bid_id].bets@,
                None => !self.bids().contains_key(bid_id),
            },
    {
        match self.bids.get(&bid_id) {
            Some(bid) => {
                let mut v: Vec<AccountId> = Vec::new();
                let mut i: usize = 0;
                while i < bid.bets.len()
                    invariant
                        i <= bid.bets@.len(),
                        v@ == bid.bets@.take(i as int),
                    decreases bid.bets@.len() - i,
                {
                    v.push(bid.bets[i]);
                    i = i + 1;
                    assert(v@ =~= bid.bets@.take(i as int));
                }
                assert(v@ =~= bid.bets@);
                Some(v)
            },
            None => None,
        }
    }

    /// The pending claim of `bid_id`, if the bid is live.
    pub fn get_claim_status(&self, bid_id: AccountId) -> (r: Option<
        Option<(AccountId, Timestamp)>,
    >)
        ensures
            match r {
                Some(c) => self.bids().contains_key(bid_id) && c == self.bids()[bid_id].claim_status,
                None => !self.bids().contains_key(bid_id),
            },
    {
        match self.bids.get(&bid_id) {
            Some(bid) => Some(bid.claim_status),
            None => None,
        }
    }

    /// Whether `(price, bid_id)` stands in the bet leaderboard.
    pub fn in_top_bets(&self, price: Balance, bid_id: AccountId) -> (r: bool)
        requires
            self.wf(),
        ensures
            r == self.top_bets().contains((price, bid_id)),
    {
        self.top_bets.contains(&(price, bid_id))
    }

    /// Whether `(price, bid_id)` stands in the claim leaderboard.
    pub fn in_top_claims(&self, price: Balance, bid_id: AccountId) -> (r: bool)
        requires
            self.wf(),
        ensures
            r == self.top_claims().contains((price, bid_id)),
    {
        self.top_claims.contains(&(price, bid_id))
    }

    /// The counters of `id`: offers, bets, claims, acquisitions, and bets volume.
    pub fn get_profile_counters(&self, id: AccountId) -> (r: (u64, u64, u64, u64, Balance))
        ensures
            ({
                let pv = self.profile(id);
                r == (pv.num_offers, pv.num_bets, pv.num_claims, pv.num_acquisitions, pv.bets_volume)
            }),
    {
        match self.profiles.get(&id) {
            Some(p) => (p.num_offers, p.num_bets, p.num_claims, p.num_acquisitions, p.bets_volume),
            None => (0, 0, 0, 0, 0),
        }
    }

    /// Whether `id` has a stake in bid `bid_id`.
    pub fn participates(&self, id: AccountId, bid_id: AccountId) -> (r: bool)
        ensures
            r == self.profile(id).participation.contains(bid_id),
    {
        match self.profiles.get(&id) {
            Some(p) => p.participation.contains(&bid_id),
            None => false,
        }
    }

    /// Whether `id` holds the right to acquire bid `bid_id`.
    pub fn can_acquire(&self, id: AccountId, bid_id: AccountId) -> (r: bool)
        ensures
            r == self.profile(id).acquisitions.contains(bid_id),
    {
        match self.profiles.get(&id) {
            Some(p) => p.acquisitions.contains(&bid_id),
            None => false,
        }
    }

    /// The bet leaderboard's entries priced within `lo..=hi`, in increasing order.
    pub fn top_bets_in_range(&self, lo: Balance, hi: Balance) -> (r: Vec<Entry>)
        requires
            self.wf(),
        ensures
            forall|e: Entry| #[trigger]
                r@.contains(e) <==> (self.top_bets().contains(e) && lo <= e.0 <= hi),
            forall|i: int, j: int|
                0 <= i < j < r@.len() ==> entry_lt(#[trigger] r@[i], #[trigger] r@[j]),
    {
        self.top_bets.range(lo, hi)
    }

    /// The claim leaderboard's entries priced within `lo..=hi`, in increasing order.
    pub fn top_claims_in_range(&self, lo: Balance, hi: Balance) -> (r: Vec<Entry>)
        requires
            self.wf(),
        ensures
            forall|e: Entry| #[trigger]
                r@.contains(e) <==> (self.top_claims().contains(e) && lo <= e.0 <= hi),
            forall|i: int, j: int|
                0 <= i < j < r@.len() ==> entry_lt(#[trigger] r@[i], #[trigger] r@[j]),
    {
        self.top_claims.range(lo, hi)
    }
}

} // verus!
