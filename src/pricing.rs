//! Prices of bets and claims, and the commission / reward split of a bet.
use vstd::prelude::*;

verus! {

/// Amount of value in the smallest unit.
pub type Balance = u128;

/// Deposit that has to come with an offer; all of it goes to commission.
pub const OFFER_DEPOSIT: Balance = 450_000_000_000_000_000_000_000;

/// Price of the first bet on a freshly offered bid.
pub const INIT_BET_PRICE: Balance = 500_000_000_000_000_000_000_000;

/// The commission is one part in this many of a bet's price.
pub const INV_COMMISSION: u128 = 20;

/// Each step of the reward decay pays 100 parts in this many of what is left.
pub const INV_REWARD_DECAY_MULT_100: u128 = 144;

/// The price that follows `p`: 20% more, rounded down.
pub open spec fn escalated(p: int) -> int {
    p * 6 / 5
}

/// Price of the bet that comes after `k` accepted bets (the offer not counted).
pub open spec fn price_after(k: nat) -> int
    decreases k,
{
    if k == 0 {
        INIT_BET_PRICE as int
    } else {
        escalated(price_after((k - 1) as nat))
    }
}

/// Commission retained from a bet of price `p`.
pub open spec fn commission_of(p: int) -> int {
    p / INV_COMMISSION as int
}

/// What one decay step pays out of a running remainder `r`.
pub open spec fn decay_share(r: int) -> int {
    r / INV_REWARD_DECAY_MULT_100 as int * 100
}

/// The running remainder after `k` decay steps starting from `r`.
pub open spec fn decay_left(r: int, k: nat) -> int
    decreases k,
{
    if k == 0 {
        r
    } else {
        let prev = decay_left(r, (k - 1) as nat);
        prev - decay_share(prev)
    }
}

/// What the decay steps over `bets` (walked from the last entry back to the
/// first, starting from remainder `r`) pay to `who`.
pub open spec fn decay_paid_to(bets: Seq<u64>, r: int, who: u64) -> int
    decreases bets.len(),
{
    if bets.len() == 0 {
        0
    } else {
        (if bets.last() == who {
            decay_share(r)
        } else {
            0
        }) + decay_paid_to(bets.drop_last(), r - decay_share(r), who)
    }
}

/// What `who` receives when `r` is distributed over `bets`: its decayed shares,
/// and, for the first bettor, what is left after the last step.
pub open spec fn payout(bets: Seq<u64>, r: int, who: u64) -> int {
    decay_paid_to(bets, r, who) + (if bets.len() > 0 && bets[0] == who {
        decay_left(r, bets.len())
    } else {
        0
    })
}

/// The next price after `p`, or `None` where it does not fit in a `Balance`.
pub fn escalate(p: Balance) -> (r: Option<Balance>)
    ensures
        match r {
            Some(q) => q as int == escalated(p as int),
            None => escalated(p as int) > u128::MAX,
        },
{
    let fifth = p / 5;
    proof {
        assert(p as int * 6 / 5 == p as int + p as int / 5) by (nonlinear_arith);
    }
    if p > u128::MAX - fifth {
        None
    } else {
        Some(p + fifth)
    }
}

/// Escalation strictly raises every price of at least five units (below that
/// the rounding eats the 20%), and so every price a bid can have.
pub proof fn lemma_escalation_increases(p: int)
    requires
        p >= 5,
    ensures
        escalated(p) > p,
        escalated(p) == p + p / 5,
{
    assert(p * 6 / 5 == p + p / 5) by (nonlinear_arith);
    assert(p / 5 >= 1) by (nonlinear_arith) requires p >= 5;
}

/// Every bid price is at least the initial price, and the price strictly
/// increases from one accepted bet to the next.
pub proof fn lemma_price_after_increases(k: nat)
    ensures
        price_after(k) >= INIT_BET_PRICE,
        price_after(k + 1) > price_after(k),
    decreases k,
{
    if k > 0 {
        lemma_price_after_increases((k - 1) as nat);
    }
    lemma_escalation_increases(price_after(k));
}

/// Each decay step pays no more than what is left, so no remainder goes negative.
pub proof fn lemma_decay_share_bounded(r: int)
    requires
        r >= 0,
    ensures
        0 <= decay_share(r) <= r,
{
    assert(0 <= r / 144 * 100 <= r) by (nonlinear_arith) requires r >= 0;
}

/// The transfers of a distribution of `r` over `bets`, in the order they are
/// made: one decay share per entry from the last back to the first, then what
/// is left to the first entry.
pub open spec fn transfers(bets: Seq<u64>, r: int) -> Seq<(u64, int)> {
    decay_transfers(bets, r).push((bets[0], decay_left(r, bets.len())))
}

/// The decay shares of a distribution of `r` over `bets`, last entry first.
pub open spec fn decay_transfers(bets: Seq<u64>, r: int) -> Seq<(u64, int)>
    decreases bets.len(),
{
    if bets.len() == 0 {
        Seq::empty()
    } else {
        seq![(bets.last(), decay_share(r))] + decay_transfers(bets.drop_last(), r - decay_share(r))
    }
}

/// Total amount of a list of transfers.
pub open spec fn amount_total(t: Seq<(u64, int)>) -> int
    decreases t.len(),
{
    if t.len() == 0 {
        0
    } else {
        t[0].1 + amount_total(t.drop_first())
    }
}

/// Total amount that a list of transfers sends to `who`.
pub open spec fn amount_to(t: Seq<(u64, int)>, who: u64) -> int
    decreases t.len(),
{
    if t.len() == 0 {
        0
    } else {
        (if t[0].0 == who {
            t[0].1
        } else {
            0
        }) + amount_to(t.drop_first(), who)
    }
}

proof fn lemma_amounts_push(t: Seq<(u64, int)>, x: (u64, int), who: u64)
    ensures
        amount_total(t.push(x)) == amount_total(t) + x.1,
        amount_to(t.push(x), who) == amount_to(t, who) + if x.0 == who {
            x.1
        } else {
            0
        },
    decreases t.len(),
{
    if t.len() > 0 {
        assert(t.push(x).drop_first() =~= t.drop_first().push(x));
        lemma_amounts_push(t.drop_first(), x, who);
    } else {
        assert(t.push(x).drop_first() =~= t);
    }
}

/// Taking the first decay step off: what is left after `k + 1` steps from `r`
/// is what is left after `k` steps from the remainder of the first.
proof fn lemma_decay_left_shift(r: int, k: nat)
    ensures
        decay_left(r, k + 1) == decay_left(r - decay_share(r), k),
    decreases k,
{
    let r1 = r - decay_share(r);
    assert(decay_left(r, k + 1) == decay_left(r, k) - decay_share(decay_left(r, k)));
    if k > 0 {
        lemma_decay_left_shift(r, (k - 1) as nat);
        assert(decay_left(r1, k) == decay_left(r1, (k - 1) as nat) - decay_share(
            decay_left(r1, (k - 1) as nat),
        ));
    } else {
        assert(decay_left(r, 0) == r);
        assert(decay_left(r1, 0) == r1);
    }
}

proof fn lemma_decay_transfers(bets: Seq<u64>, r: int, who: u64)
    ensures
        amount_total(decay_transfers(bets, r)) + decay_left(r, bets.len()) == r,
        amount_to(decay_transfers(bets, r), who) == decay_paid_to(bets, r, who),
    decreases bets.len(),
{
    if bets.len() > 0 {
        let rest = decay_transfers(bets.drop_last(), r - decay_share(r));
        let t = seq![(bets.last(), decay_share(r))] + rest;
        assert(t.drop_first() =~= rest);
        lemma_decay_transfers(bets.drop_last(), r - decay_share(r), who);
        lemma_decay_left_shift(r, (bets.len() - 1) as nat);
    }
}

/// Conservation of a bet: the commission and the transfers of a bet of price
/// `p` over a non-empty history add up to `p` exactly, and what the transfers
/// send to each account is its payout.
pub proof fn lemma_bet_conserves(bets: Seq<u64>, p: int, who: u64)
    requires
        bets.len() > 0,
    ensures
        commission_of(p) + amount_total(transfers(bets, p - commission_of(p))) == p,
        amount_to(transfers(bets, p - commission_of(p)), who) == payout(
            bets,
            p - commission_of(p),
            who,
        ),
{
    let r = p - commission_of(p);
    lemma_decay_transfers(bets, r, who);
    lemma_amounts_push(decay_transfers(bets, r), (bets[0], decay_left(r, bets.len())), who);
}

} // verus!
