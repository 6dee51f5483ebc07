use vstd::prelude::*;

use crate::types::{Outcome, Stake};

verus! {

/// The pari-mutuel payout of a stake `(stake_yes, stake_no)` in a market
/// resolved to `outcome` with pools `yes_pool` and `no_pool`: a winner gets
/// the floor of its share of the whole pool, a loser nothing, and an invalid
/// outcome refunds everything staked.
pub open spec fn payout_of(outcome: Outcome, yes_pool: int, no_pool: int, stake_yes: int, stake_no: int) -> int {
    match outcome {
        Outcome::Invalid => stake_yes + stake_no,
        Outcome::Yes => if stake_yes > 0 && yes_pool > 0 {
            (yes_pool + no_pool) * stake_yes / yes_pool
        } else {
            0
        },
        Outcome::No => if stake_no > 0 && no_pool > 0 {
            (yes_pool + no_pool) * stake_no / no_pool
        } else {
            0
        },
    }
}

/// Every intermediate value of the payout computation fits in an `i128`.
pub open spec fn payout_fits(outcome: Outcome, yes_pool: int, no_pool: int, stake_yes: int, stake_no: int) -> bool {
    match outcome {
        Outcome::Invalid => stake_yes + stake_no <= i128::MAX,
        Outcome::Yes => stake_yes > 0 && yes_pool > 0 ==> (yes_pool + no_pool) * stake_yes <= i128::MAX,
        Outcome::No => stake_no > 0 && no_pool > 0 ==> (yes_pool + no_pool) * stake_no <= i128::MAX,
    }
}

/// The payout owed to `stake` in a market resolved to `outcome`.
pub fn payout(outcome: Outcome, yes_pool: i128, no_pool: i128, stake: &Stake) -> (r: i128)
    requires
        yes_pool >= 0,
        no_pool >= 0,
        stake.yes >= 0,
        stake.no >= 0,
        payout_fits(outcome, yes_pool as int, no_pool as int, stake.yes as int, stake.no as int),
    ensures
        r == payout_of(outcome, yes_pool as int, no_pool as int, stake.yes as int, stake.no as int),
{
    match outcome {
        Outcome::Invalid => stake.yes + stake.no,
        Outcome::Yes => {
            if stake.yes > 0 && yes_pool > 0 {
                proof {
                    lemma_mul_fits(yes_pool as int, no_pool as int, stake.yes as int);
                }
                let total_pool = yes_pool + no_pool;
                (total_pool * stake.yes) / yes_pool
            } else {
                0
            }
        },
        Outcome::No => {
            if stake.no > 0 && no_pool > 0 {
                proof {
                    lemma_mul_fits(yes_pool as int, no_pool as int, stake.no as int);
                }
                let total_pool = yes_pool + no_pool;
                (total_pool * stake.no) / no_pool
            } else {
                0
            }
        },
    }
}

proof fn lemma_mul_fits(a: int, b: int, s: int)
    requires
        a >= 0,
        b >= 0,
        s >= 1,
        (a + b) * s <= i128::MAX,
    ensures
        a + b <= i128::MAX,
        (a + b) * s >= 0,
{
    assert((a + b) * s >= (a + b) * 1) by (nonlinear_arith)
        requires a + b >= 0, s >= 1;
}

proof fn lemma_share_at_most(part: int, whole: int, scale: int)
    requires
        0 <= part <= whole,
        whole > 0,
        scale >= 0,
    ensures
        0 <= part * scale / whole <= scale,
{
    assert(part * scale <= whole * scale) by (nonlinear_arith)
        requires part <= whole, scale >= 0;
    assert(0 <= part * scale) by (nonlinear_arith)
        requires part >= 0, scale >= 0;
    assert(part * scale / whole <= whole * scale / whole) by (nonlinear_arith)
        requires part * scale <= whole * scale, whole > 0;
    assert(whole * scale / whole == scale) by (nonlinear_arith)
        requires whole > 0;
    assert(0 <= part * scale / whole) by (nonlinear_arith)
        requires part * scale >= 0, whole > 0;
}

/// The share of the whole pool staked on `Yes`, in basis points; an empty
/// market is even at 5000.
pub open spec fn odds_of(yes_pool: int, no_pool: int) -> int {
    if yes_pool + no_pool == 0 {
        5000
    } else {
        yes_pool * 10000 / (yes_pool + no_pool)
    }
}

/// The computation of the odds stays within `i128`.
pub open spec fn odds_fit(yes_pool: int, no_pool: int) -> bool {
    yes_pool + no_pool <= i128::MAX && yes_pool * 10000 <= i128::MAX
}

/// The odds of `Yes` in basis points, from 0 to 10000.
pub fn odds(yes_pool: i128, no_pool: i128) -> (r: u32)
    requires
        yes_pool >= 0,
        no_pool >= 0,
        odds_fit(yes_pool as int, no_pool as int),
    ensures
        r as int == odds_of(yes_pool as int, no_pool as int),
        r <= 10000,
{
    let total = yes_pool + no_pool;
    if total == 0 {
        5000
    } else {
        let bp = (yes_pool * 10000) / total;
        proof {
            lemma_share_at_most(yes_pool as int, total as int, 10000);
        }
        bp as u32
    }
}

} // verus!
