use vstd::prelude::*;

use crate::types::Stake;

verus! {

/// The stake of one participant on one market.
#[derive(Clone, Debug)]
pub struct StakeEntry {
    pub market_id: u32,
    pub user: String,
    pub stake: Stake,
}

/// What one entry adds to the `Yes` (`yes == true`) or `No` pool of market `id`.
pub open spec fn contribution(e: StakeEntry, id: u32, yes: bool) -> int {
    if e.market_id == id {
        if yes { e.stake.yes as int } else { e.stake.no as int }
    } else {
        0
    }
}

/// The total staked on one side of market `id` over the entries `s`.
pub open spec fn staked_sum(s: Seq<StakeEntry>, id: u32, yes: bool) -> int
    decreases s.len(),
{
    if s.len() == 0 {
        0
    } else {
        staked_sum(s.drop_last(), id, yes) + contribution(s.last(), id, yes)
    }
}

/// Every entry holds non-negative amounts.
pub open spec fn all_non_negative(s: Seq<StakeEntry>) -> bool {
    forall|j: int| 0 <= j < s.len() ==> #[trigger] s[j].stake.yes >= 0 && s[j].stake.no >= 0
}

pub proof fn lemma_sum_push(s: Seq<StakeEntry>, e: StakeEntry, id: u32, yes: bool)
    ensures
        staked_sum(s.push(e), id, yes) == staked_sum(s, id, yes) + contribution(e, id, yes),
{
    assert(s.push(e).drop_last() =~= s);
}

pub proof fn lemma_sum_update(s: Seq<StakeEntry>, k: int, e: StakeEntry, id: u32, yes: bool)
    requires
        0 <= k < s.len(),
    ensures
        staked_sum(s.update(k, e), id, yes) == staked_sum(s, id, yes) - contribution(s[k], id, yes)
            + contribution(e, id, yes),
    decreases s.len(),
{
    let t = s.update(k, e);
    if k == s.len() - 1 {
        assert(t.drop_last() =~= s.drop_last());
    } else {
        assert(t.drop_last() =~= s.drop_last().update(k, e));
        lemma_sum_update(s.drop_last(), k, e, id, yes);
    }
}

pub proof fn lemma_sum_absent(s: Seq<StakeEntry>, id: u32, yes: bool)
    requires
        forall|j: int| 0 <= j < s.len() ==> #[trigger] s[j].market_id != id,
    ensures
        staked_sum(s, id, yes) == 0,
    decreases s.len(),
{
    if s.len() > 0 {
        lemma_sum_absent(s.drop_last(), id, yes);
    }
}

/// With non-negative entries, each entry's contribution lies between zero and the sum.
pub proof fn lemma_sum_bounds(s: Seq<StakeEntry>, id: u32, yes: bool)
    requires
        all_non_negative(s),
    ensures
        staked_sum(s, id, yes) >= 0,
        forall|k: int| 0 <= k < s.len() ==> 0 <= #[trigger] contribution(s[k], id, yes) <= staked_sum(s, id, yes),
    decreases s.len(),
{
    if s.len() > 0 {
        let p = s.drop_last();
        assert(all_non_negative(p)) by {
            assert forall|j: int| 0 <= j < p.len() implies #[trigger] p[j].stake.yes >= 0 && p[j].stake.no >= 0 by {
                assert(p[j] == s[j]);
            }
        }
        lemma_sum_bounds(p, id, yes);
        assert(s[s.len() - 1].stake.yes >= 0);
        assert forall|k: int| 0 <= k < s.len() implies 0 <= #[trigger] contribution(s[k], id, yes) <= staked_sum(s, id, yes) by {
            if k < s.len() - 1 {
                assert(s[k] == p[k]);
            }
        }
    }
}

} // verus!
