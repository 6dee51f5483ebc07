use vstd::prelude::*;

use crate::ledger::{staked_sum, StakeEntry};
use crate::market::FarmersMarket;
use crate::payout::payout_of;
use crate::types::{Error, Outcome, Stake};

verus! {

/// Conservation: in every well-formed state, each pool of a market is the sum
/// of the stakes placed on that side of it.
pub proof fn lemma_conservation(s: FarmersMarket, id: u32)
    requires
        s.wf(),
        s.has_market(id),
    ensures
        s.market(id).yes_pool == staked_sum(s.stakes@, id, true),
        s.market(id).no_pool == staked_sum(s.stakes@, id, false),
{
    assert(s.markets@[id - 1].yes_pool == staked_sum(s.stakes@, ((id - 1) + 1) as u32, true));
}

proof fn lemma_floor_bounds(x: int, d: int)
    requires
        x >= 0,
        d > 0,
    ensures
        (x / d) * d <= x < (x / d) * d + d,
{
    assert((x / d) * d <= x < (x / d) * d + d) by (nonlinear_arith)
        requires x >= 0, d > 0;
}

/// Proportionality: when the market resolves to `Yes`, two winners with
/// stakes `a` and `b` are paid in the ratio of their stakes, up to the
/// rounding of each payout down to a whole unit: `pa * b - pb * a` lies
/// strictly between `-b` and `a`.
pub proof fn lemma_proportional(yes_pool: int, no_pool: int, a: int, b: int)
    requires
        yes_pool > 0,
        no_pool >= 0,
        a > 0,
        b > 0,
    ensures
        ({
            let pa = payout_of(Outcome::Yes, yes_pool, no_pool, a, 0);
            let pb = payout_of(Outcome::Yes, yes_pool, no_pool, b, 0);
            -b < pa * b - pb * a < a
        }),
{
    let t = yes_pool + no_pool;
    let pa = payout_of(Outcome::Yes, yes_pool, no_pool, a, 0);
    let pb = payout_of(Outcome::Yes, yes_pool, no_pool, b, 0);
    assert(t * a >= 0 && t * b >= 0) by (nonlinear_arith)
        requires t >= 0, a > 0, b > 0;
    lemma_floor_bounds(t * a, yes_pool);
    lemma_floor_bounds(t * b, yes_pool);
    assert(pa * yes_pool <= t * a < pa * yes_pool + yes_pool);
    assert(pb * yes_pool <= t * b < pb * yes_pool + yes_pool);
    assert(pa * b - pb * a < a) by (nonlinear_arith)
        requires
            pa * yes_pool <= t * a,
            t * b < pb * yes_pool + yes_pool,
            yes_pool > 0,
            a > 0,
            b > 0;
    assert(-b < pa * b - pb * a) by (nonlinear_arith)
        requires
            pb * yes_pool <= t * b,
            t * a < pa * yes_pool + yes_pool,
            yes_pool > 0,
            a > 0,
            b > 0;
}

/// The sum of the payouts owed to every entry of market `id` in `s`.
pub open spec fn payout_total(s: Seq<StakeEntry>, id: u32, outcome: Outcome, yes_pool: int, no_pool: int) -> int
    decreases s.len(),
{
    if s.len() == 0 {
        0
    } else {
        let e = s.last();
        payout_total(s.drop_last(), id, outcome, yes_pool, no_pool) + if e.market_id == id {
            payout_of(outcome, yes_pool, no_pool, e.stake.yes as int, e.stake.no as int)
        } else {
            0
        }
    }
}

proof fn lemma_refund_total(s: Seq<StakeEntry>, id: u32, yes_pool: int, no_pool: int)
    ensures
        payout_total(s, id, Outcome::Invalid, yes_pool, no_pool) == staked_sum(s, id, true) + staked_sum(s, id, false),
    decreases s.len(),
{
    if s.len() > 0 {
        lemma_refund_total(s.drop_last(), id, yes_pool, no_pool);
    }
}

/// Full refund: when a market resolves to `Invalid`, the payouts owed over
/// all of its stakes add up exactly to everything staked on it, both pools.
pub proof fn lemma_full_refund(s: FarmersMarket, id: u32)
    requires
        s.wf(),
        s.has_market(id),
    ensures
        payout_total(s.stakes@, id, Outcome::Invalid, s.market(id).yes_pool as int, s.market(id).no_pool as int)
            == s.market(id).yes_pool + s.market(id).no_pool,
{
    lemma_conservation(s, id);
    lemma_refund_total(s.stakes@, id, s.market(id).yes_pool as int, s.market(id).no_pool as int);
}

/// A single payout per participant: once a claim on a market has succeeded,
/// a second claim on the state it leaves (same configuration and markets, the
/// stake now marked claimed) fails with `NothingToClaim`.
pub proof fn lemma_claim_once(before: FarmersMarket, after: FarmersMarket, id: u32, user: Seq<char>)
    requires
        before.wf(),
        after.wf(),
        before.claim_result(id, user) is Ok,
        after.config == before.config,
        after.markets == before.markets,
        after.stake(id, user) == (Stake { claimed: true, ..before.stake(id, user) }),
    ensures
        after.claim_result(id, user) == Err::<i128, Error>(Error::NothingToClaim),
{
}

/// Timing guard: once initialized, a market whose betting would not close in
/// the future, or whose resolution would not come after the close, is
/// refused with `InvalidTime` (and `create_market` then leaves the state as it was).
pub proof fn lemma_timing_guard(s: FarmersMarket, now: u64, close_ts: u64, resolution_ts: u64)
    requires
        s.is_initialized(),
        close_ts <= now || resolution_ts <= close_ts,
    ensures
        s.create_result(now, close_ts, resolution_ts) == Err::<u32, Error>(Error::InvalidTime),
{
}

} // verus!
