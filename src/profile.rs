//! Per-account counters and memberships, and the store of profiles and reward balances.
use std::collections::HashMap;
use std::collections::HashSet;
use vstd::prelude::*;

use crate::bid::AccountId;
use crate::pricing::Balance;

verus! {

broadcast use vstd::std_specs::hash::group_hash_axioms;

pub struct Profile {
    pub num_offers: u64,
    pub num_bets: u64,
    pub num_claims: u64,
    pub num_acquisitions: u64,
    /// Total price paid for bets.
    pub bets_volume: Balance,
    /// Bids this account currently has a stake in.
    pub participation: HashSet<AccountId>,
    /// Bids this account has been granted and not yet acquired.
    pub acquisitions: HashSet<AccountId>,
}

pub struct ProfileView {
    pub num_offers: u64,
    pub num_bets: u64,
    pub num_claims: u64,
    pub num_acquisitions: u64,
    pub bets_volume: Balance,
    pub participation: Set<AccountId>,
    pub acquisitions: Set<AccountId>,
}

impl ProfileView {
    /// The profile of an account that never interacted with the ledger.
    pub open spec fn empty() -> ProfileView {
        ProfileView {
            num_offers: 0,
            num_bets: 0,
            num_claims: 0,
            num_acquisitions: 0,
            bets_volume: 0,
            participation: Set::empty(),
            acquisitions: Set::empty(),
        }
    }
}

impl View for Profile {
    type V = ProfileView;

    open spec fn view(&self) -> ProfileView {
        ProfileView {
            num_offers: self.num_offers,
            num_bets: self.num_bets,
            num_claims: self.num_claims,
            num_acquisitions: self.num_acquisitions,
            bets_volume: self.bets_volume,
            participation: self.participation@,
            acquisitions: self.acquisitions@,
        }
    }
}

impl Profile {
    pub fn new() -> (r: Profile)
        ensures
            r@ == ProfileView::empty(),
    {
        Profile {
            num_offers: 0,
            num_bets: 0,
            num_claims: 0,
            num_acquisitions: 0,
            bets_volume: 0,
            participation: HashSet::new(),
            acquisitions: HashSet::new(),
        }
    }
}

/// The profile of `id` in a store; a missing one reads as empty.
pub open spec fn profile_in(m: Map<AccountId, Profile>, id: AccountId) -> ProfileView {
    if m.contains_key(id) {
        m[id]@
    } else {
        ProfileView::empty()
    }
}

/// The reward balance of `id`; a missing one reads as zero.
pub open spec fn reward_in(m: Map<AccountId, Balance>, id: AccountId) -> int {
    if m.contains_key(id) {
        m[id] as int
    } else {
        0
    }
}

/// Takes the profile of `id` out of the store, or a fresh one.
pub fn extract_profile_or_create(profiles: &mut HashMap<AccountId, Profile>, id: AccountId) -> (r:
    Profile)
    ensures
        r@ == profile_in(old(profiles)@, id),
        final(profiles)@ == old(profiles)@.remove(id),
{
    match profiles.remove(&id) {
        Some(p) => p,
        None => {
            assert(old(profiles)@.remove(id) =~= old(profiles)@);
            Profile::new()
        },
    }
}

/// Puts the profile of `id` back into the store.
pub fn save_profile(profiles: &mut HashMap<AccountId, Profile>, id: AccountId, p: Profile)
    ensures
        final(profiles)@ == old(profiles)@.insert(id, p),
{
    profiles.insert(id, p);
}

/// Adds `amount` to the reward balance of `id`.
pub fn update_reward(rewards: &mut HashMap<AccountId, Balance>, id: AccountId, amount: Balance)
    requires
        reward_in(old(rewards)@, id) + amount <= u128::MAX,
    ensures
        final(rewards)@ == old(rewards)@.insert(id, (reward_in(old(rewards)@, id) + amount) as u128),
{
    let cur: Balance = match rewards.get(&id) {
        Some(v) => *v,
        None => 0,
    };
    rewards.insert(id, cur + amount);
}

} // verus!
