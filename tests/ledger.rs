use bid_ledger::contract::{Contract, LedgerError};
use bid_ledger::pricing::{escalate, INIT_BET_PRICE, OFFER_DEPOSIT};

const OFFERER: u64 = 1;
const BENEFICIARY: u64 = 2;
const ALICE: u64 = 3;
const BOB: u64 = 4;
const CAROL: u64 = 5;
const WINDOW: u64 = 100;

fn offered() -> Contract {
    let mut c = Contract::new(WINDOW);
    assert_eq!(c.offer(BENEFICIARY, OFFERER, OFFER_DEPOSIT), Ok(()));
    c
}

#[test]
fn offer_with_exact_minimum_deposit_succeeds() {
    let c = offered();
    assert_eq!(c.get_bets(OFFERER), Some(vec![BENEFICIARY]));
    assert_eq!(c.get_claim_status(OFFERER), Some(None));
    assert_eq!(c.get_total_commission(), OFFER_DEPOSIT);
    assert!(c.in_top_bets(INIT_BET_PRICE, OFFERER));
    assert_eq!(c.get_profile_counters(BENEFICIARY), (1, 0, 0, 0, 0));
    assert!(c.participates(BENEFICIARY, OFFERER));
}

#[test]
fn offer_one_below_minimum_fails() {
    let mut c = Contract::new(WINDOW);
    assert_eq!(
        c.offer(BENEFICIARY, OFFERER, OFFER_DEPOSIT - 1),
        Err(LedgerError::OfferDepositNotEnough)
    );
    assert_eq!(c.get_bets(OFFERER), None);
    assert_eq!(c.get_total_commission(), 0);
}

#[test]
fn offer_to_self_is_rejected() {
    let mut c = Contract::new(WINDOW);
    assert_eq!(c.offer(OFFERER, OFFERER, OFFER_DEPOSIT), Err(LedgerError::GainerSameAsOffer));
}

#[test]
fn second_offer_is_rejected_and_first_kept() {
    let mut c = offered();
    assert_eq!(c.offer(ALICE, OFFERER, OFFER_DEPOSIT), Err(LedgerError::AlreadyOffered));
    assert_eq!(c.get_bets(OFFERER), Some(vec![BENEFICIARY]));
    assert_eq!(c.get_total_commission(), OFFER_DEPOSIT);
    assert_eq!(c.get_profile_counters(ALICE), (0, 0, 0, 0, 0));
}

#[test]
fn first_and_second_bet_prices() {
    let mut c = offered();
    assert_eq!(c.get_bet_price(OFFERER), Some(INIT_BET_PRICE));
    assert_eq!(c.bet(OFFERER, ALICE, INIT_BET_PRICE, 0, 0), Ok(()));
    let second = INIT_BET_PRICE * 6 / 5;
    assert_eq!(second, 600_000_000_000_000_000_000_000);
    assert_eq!(c.get_bet_price(OFFERER), Some(second));
    assert!(c.in_top_bets(second, OFFERER));
    assert!(!c.in_top_bets(INIT_BET_PRICE, OFFERER));
    assert_eq!(c.get_profile_counters(ALICE), (0, 1, 0, 0, INIT_BET_PRICE));
}

#[test]
fn first_bet_pays_everything_but_commission_to_the_beneficiary() {
    let mut c = offered();
    assert_eq!(c.bet(OFFERER, ALICE, INIT_BET_PRICE, 0, 0), Ok(()));
    assert_eq!(c.get_total_commission(), OFFER_DEPOSIT + 25_000_000_000_000_000_000_000);
    assert_eq!(c.get_reward(BENEFICIARY), 475_000_000_000_000_000_000_000);
    assert_eq!(c.get_reward(ALICE), 0);
}

#[test]
fn bet_with_two_prior_bettors_decays_rewards() {
    let mut c = offered();
    assert_eq!(c.bet(OFFERER, ALICE, INIT_BET_PRICE, 0, 0), Ok(()));
    let before_beneficiary = c.get_reward(BENEFICIARY);
    let before_commission = c.get_total_commission();
    let price = 600_000_000_000_000_000_000_000;
    assert_eq!(c.bet(OFFERER, BOB, price, 0, 0), Ok(()));
    assert_eq!(c.get_total_commission() - before_commission, 30_000_000_000_000_000_000_000);
    assert_eq!(c.get_reward(ALICE), 395_833_333_333_333_333_333_300);
    assert_eq!(
        c.get_reward(BENEFICIARY) - before_beneficiary,
        174_166_666_666_666_666_666_700
    );
    assert_eq!(c.get_reward(BOB), 0);
    assert_eq!(c.get_bets(OFFERER), Some(vec![BENEFICIARY, ALICE, BOB]));
}

#[test]
fn every_bet_is_fully_accounted_for() {
    let mut c = offered();
    let mut taken_in = OFFER_DEPOSIT;
    for bettor in [ALICE, BOB, CAROL, ALICE, BOB] {
        let price = c.get_bet_price(OFFERER).unwrap();
        assert_eq!(c.bet(OFFERER, bettor, price, 0, 0), Ok(()));
        taken_in += price;
    }
    let paid = c.get_total_commission()
        + c.get_reward(BENEFICIARY)
        + c.get_reward(ALICE)
        + c.get_reward(BOB)
        + c.get_reward(CAROL);
    assert_eq!(paid, taken_in);
}

#[test]
fn bet_prices_strictly_increase() {
    let mut c = offered();
    let mut last = 0;
    for bettor in [ALICE, BOB, CAROL, ALICE] {
        let price = c.get_bet_price(OFFERER).unwrap();
        assert!(price > last);
        assert_eq!(c.bet(OFFERER, bettor, price, 0, 0), Ok(()));
        assert_eq!(c.get_bet_price(OFFERER), Some(price * 6 / 5));
        last = price;
    }
}

#[test]
fn escalation_of_small_and_huge_prices() {
    assert_eq!(escalate(10), Some(12));
    assert_eq!(escalate(4), Some(4));
    assert_eq!(escalate(u128::MAX), None);
}

#[test]
fn bet_below_price_plus_forfeit_is_rejected() {
    let mut c = offered();
    assert_eq!(
        c.bet(OFFERER, ALICE, INIT_BET_PRICE - 1, 0, 0),
        Err(LedgerError::BetForfeitNotEnough)
    );
    assert_eq!(
        c.bet(OFFERER, ALICE, INIT_BET_PRICE, 0, 1),
        Err(LedgerError::BetForfeitNotEnough)
    );
    assert_eq!(c.bet(OFFERER, ALICE, INIT_BET_PRICE + 1, 0, 1), Ok(()));
}

#[test]
fn operations_on_unknown_bid_are_not_found() {
    let mut c = Contract::new(WINDOW);
    assert_eq!(c.bet(OFFERER, ALICE, INIT_BET_PRICE, 0, 0), Err(LedgerError::BidNotFound));
    assert_eq!(c.claim(OFFERER, ALICE, u128::MAX, 0), Err(LedgerError::BidNotFound));
    assert_eq!(c.finalize(OFFERER, 0), Err(LedgerError::BidNotFound));
}

#[test]
fn claim_needs_twice_the_bet_price() {
    let mut c = offered();
    let claim_price = 2 * INIT_BET_PRICE;
    assert_eq!(c.claim(OFFERER, ALICE, claim_price - 1, 10), Err(LedgerError::ClaimNotEnough));
    assert_eq!(c.claim(OFFERER, ALICE, claim_price, 10), Ok(()));
    assert!(c.in_top_claims(claim_price, OFFERER));
    assert_eq!(c.get_claim_status(OFFERER), Some(Some((ALICE, 10))));
    assert_eq!(c.get_profile_counters(ALICE), (0, 0, 1, 0, 0));
    assert_eq!(c.claim(OFFERER, BOB, claim_price, 11), Err(LedgerError::AlreadyClaimed));
}

#[test]
fn bet_after_claim_supersedes_it() {
    let mut c = offered();
    let claim_price = 2 * INIT_BET_PRICE;
    assert_eq!(c.claim(OFFERER, ALICE, claim_price, 10), Ok(()));
    assert_eq!(c.bet(OFFERER, BOB, INIT_BET_PRICE, 20, 0), Ok(()));
    assert_eq!(c.get_claim_status(OFFERER), Some(None));
    assert!(!c.in_top_claims(claim_price, OFFERER));
    assert!(c.in_top_bets(600_000_000_000_000_000_000_000, OFFERER));
}

#[test]
fn finalize_waits_for_the_window_and_runs_once() {
    let mut c = offered();
    assert_eq!(c.bet(OFFERER, ALICE, INIT_BET_PRICE, 0, 0), Ok(()));
    let claim_price = 2 * 600_000_000_000_000_000_000_000;
    assert_eq!(c.claim(OFFERER, BOB, claim_price, 10), Ok(()));
    assert_eq!(c.finalize(OFFERER, 50), Err(LedgerError::NotOnAcquisition));
    assert_eq!(c.finalize(OFFERER, 10 + WINDOW - 1), Err(LedgerError::NotOnAcquisition));
    assert_eq!(c.finalize(OFFERER, 10 + WINDOW), Ok(()));
    assert_eq!(c.finalize(OFFERER, 10 + WINDOW), Err(LedgerError::BidNotFound));
    assert_eq!(
        c.bet(OFFERER, CAROL, u128::MAX, 10 + WINDOW, 0),
        Err(LedgerError::BidNotFound)
    );
    assert_eq!(c.claim(OFFERER, CAROL, u128::MAX, 10 + WINDOW), Err(LedgerError::BidNotFound));
    assert_eq!(c.get_bets(OFFERER), None);
    assert!(!c.in_top_bets(1_200_000_000_000_000_000_000_000 / 2, OFFERER));
    assert!(!c.in_top_claims(claim_price, OFFERER));
    assert!(c.can_acquire(BOB, OFFERER));
    assert!(!c.participates(BOB, OFFERER));
    assert!(!c.participates(ALICE, OFFERER));
    assert!(!c.participates(BENEFICIARY, OFFERER));
}

#[test]
fn bet_is_refused_once_the_claim_has_aged() {
    let mut c = offered();
    assert_eq!(c.claim(OFFERER, ALICE, 2 * INIT_BET_PRICE, 10), Ok(()));
    assert_eq!(
        c.bet(OFFERER, BOB, INIT_BET_PRICE, 10 + WINDOW, 0),
        Err(LedgerError::BetOnAcquisition)
    );
}

#[test]
fn acquire_without_right_is_rejected() {
    let mut c = offered();
    assert_eq!(c.acquire(OFFERER, ALICE, vec![7, 7]), Err(LedgerError::AcquireRejected));
}

#[test]
fn acquire_consumes_the_right_once() {
    let mut c = offered();
    assert_eq!(c.claim(OFFERER, ALICE, 2 * INIT_BET_PRICE, 0), Ok(()));
    assert_eq!(c.finalize(OFFERER, WINDOW), Ok(()));
    assert_eq!(c.acquire(OFFERER, BOB, vec![1]), Err(LedgerError::AcquireRejected));
    assert_eq!(c.acquire(OFFERER, ALICE, vec![9, 8, 7]), Ok(vec![9, 8, 7]));
    assert_eq!(c.get_profile_counters(ALICE), (0, 0, 1, 1, 0));
    assert!(!c.can_acquire(ALICE, OFFERER));
    assert_eq!(c.acquire(OFFERER, ALICE, vec![9, 8, 7]), Err(LedgerError::AcquireRejected));
}

#[test]
fn finalized_account_can_be_offered_again() {
    let mut c = offered();
    assert_eq!(c.claim(OFFERER, ALICE, 2 * INIT_BET_PRICE, 0), Ok(()));
    assert_eq!(c.finalize(OFFERER, WINDOW), Ok(()));
    assert_eq!(c.offer(BENEFICIARY, OFFERER, OFFER_DEPOSIT), Ok(()));
    assert_eq!(c.get_bet_price(OFFERER), Some(INIT_BET_PRICE));
}

#[test]
fn leaderboard_range_is_ordered_by_price_then_id() {
    let mut c = Contract::new(WINDOW);
    assert_eq!(c.offer(BENEFICIARY, 30, OFFER_DEPOSIT), Ok(()));
    assert_eq!(c.offer(BENEFICIARY, 10, OFFER_DEPOSIT), Ok(()));
    assert_eq!(c.offer(BENEFICIARY, 20, OFFER_DEPOSIT), Ok(()));
    assert_eq!(c.bet(20, ALICE, INIT_BET_PRICE, 0, 0), Ok(()));
    let second = 600_000_000_000_000_000_000_000;
    assert_eq!(
        c.top_bets_in_range(0, u128::MAX),
        vec![(INIT_BET_PRICE, 10), (INIT_BET_PRICE, 30), (second, 20)]
    );
    assert_eq!(c.top_bets_in_range(second, second), vec![(second, 20)]);
    assert_eq!(c.top_bets_in_range(0, INIT_BET_PRICE - 1), vec![]);
    assert_eq!(c.claim(30, BOB, 2 * INIT_BET_PRICE, 0), Ok(()));
    assert_eq!(c.top_claims_in_range(0, u128::MAX), vec![(2 * INIT_BET_PRICE, 30)]);
}
