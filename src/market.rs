use vstd::prelude::*;

use crate::ledger::{staked_sum, all_non_negative, contribution, lemma_sum_push, lemma_sum_update, lemma_sum_absent, lemma_sum_bounds, StakeEntry};
use crate::payout::{odds, odds_fit, odds_of, payout, payout_fits, payout_of};
use crate::types::{validate_amount, validate_market_timing, Error, Market, Outcome, Stake};

verus! {

/// The identities fixed at initialization.
#[derive(Clone, Debug)]
pub struct Config {
    pub admin: String,
    pub resolver: String,
    /// The asset that stakes are paid in.
    pub token: String,
}

/// The whole state of the engine: its configuration, once set, every market
/// (market `id` stands at index `id - 1`) and every stake.
#[derive(Clone, Debug)]
pub struct FarmersMarket {
    pub config: Option<Config>,
    /// The id the next market gets; 1 from initialization on.
    pub next_market_id: u32,
    pub markets: Vec<Market>,
    pub stakes: Vec<StakeEntry>,
}

impl FarmersMarket {
    pub open spec fn is_initialized(&self) -> bool {
        self.config is Some
    }

    pub open spec fn has_market(&self, id: u32) -> bool {
        1 <= id <= self.markets@.len()
    }

    pub open spec fn market(&self, id: u32) -> Market {
        self.markets@[id - 1]
    }

    /// Entry `i` records the stake of `user` on market `id`.
    pub open spec fn holds_stake(&self, i: int, id: u32, user: Seq<char>) -> bool {
        0 <= i < self.stakes@.len() && self.stakes@[i].market_id == id && self.stakes@[i].user@ == user
    }

    /// The stake of `user` on market `id`: zero until the first bet.
    pub open spec fn stake(&self, id: u32, user: Seq<char>) -> Stake {
        if exists|i: int| self.holds_stake(i, id, user) {
            self.stakes@[choose|i: int| self.holds_stake(i, id, user)].stake
        } else {
            Stake::zero()
        }
    }

    /// The pools of every market are the sums of its stakes.
    pub open spec fn pools_conserved(&self) -> bool {
        forall|i: int| 0 <= i < self.markets@.len() ==> {
            &&& (#[trigger] self.markets@[i]).yes_pool == staked_sum(self.stakes@, (i + 1) as u32, true)
            &&& self.markets@[i].no_pool == staked_sum(self.stakes@, (i + 1) as u32, false)
        }
    }

    /// The invariant of the state.
    pub open spec fn wf(&self) -> bool {
        &&& !self.is_initialized() ==> self.markets@.len() == 0 && self.stakes@.len() == 0
        &&& self.is_initialized() ==> self.next_market_id == self.markets@.len() + 1
        &&& forall|i: int| 0 <= i < self.markets@.len() ==> (#[trigger] self.markets@[i]).id == i + 1
        &&& self.pools_conserved()
        &&& all_non_negative(self.stakes@)
        &&& forall|j: int| 0 <= j < self.stakes@.len() ==> self.has_market(#[trigger] self.stakes@[j].market_id)
        &&& forall|j: int, k: int|
            0 <= j < self.stakes@.len() && 0 <= k < self.stakes@.len() && j != k
                && (#[trigger] self.stakes@[j]).market_id == (#[trigger] self.stakes@[k]).market_id
                ==> self.stakes@[j].user@ != self.stakes@[k].user@
    }

    /// An engine with no configuration, markets or stakes.
    pub fn new() -> (r: FarmersMarket)
        ensures
            r.wf(),
            !r.is_initialized(),
            r.markets@.len() == 0,
            r.stakes@.len() == 0,
    {
        FarmersMarket { config: None, next_market_id: 0, markets: Vec::new(), stakes: Vec::new() }
    }

    pub fn require_initialized(&self) -> (r: Result<(), Error>)
        ensures
            r == (if self.is_initialized() { Ok(()) } else { Err(Error::NotInitialized) }),
    {
        if self.config.is_none() {
            return Err(Error::NotInitialized);
        }
        Ok(())
    }

    /// Sets the configuration, once. The caller has been authenticated as `admin`.
    pub fn init(&mut self, admin: String, resolver: String, kale_sac_address: String) -> (r: Result<(), Error>)
        requires
            old(self).wf(),
        ensures
            final(self).wf(),
            old(self).is_initialized() ==> r == Err::<(), Error>(Error::AlreadyInitialized) && *final(self) == *old(self),
            !old(self).is_initialized() ==> {
                &&& r == Ok::<(), Error>(())
                &&& final(self).config == Some(Config { admin, resolver, token: kale_sac_address })
                &&& final(self).next_market_id == 1
                &&& final(self).markets@.len() == 0
                &&& final(self).stakes@.len() == 0
            },
    {
        if self.config.is_some() {
            return Err(Error::AlreadyInitialized);
        }
        self.config = Some(Config { admin, resolver, token: kale_sac_address });
        self.next_market_id = 1;
        Ok(())
    }

    /// What `create_market` answers at time `now`.
    pub open spec fn create_result(&self, now: u64, close_ts: u64, resolution_ts: u64) -> Result<u32, Error> {
        if !self.is_initialized() {
            Err(Error::NotInitialized)
        } else if close_ts <= now || resolution_ts <= close_ts {
            Err(Error::InvalidTime)
        } else {
            Ok(self.next_market_id)
        }
    }

    /// Opens a market on `question` at time `now`, betting until `close_ts`
    /// and resolvable from `resolution_ts`. The caller has been
    /// authenticated as `creator`. Market ids are `u32`: the id space must
    /// not be exhausted.
    pub fn create_market(&mut self, now: u64, creator: String, question: String, close_ts: u64, resolution_ts: u64) -> (r: Result<u32, Error>)
        requires
            old(self).wf(),
            old(self).create_result(now, close_ts, resolution_ts) is Ok ==> old(self).next_market_id < u32::MAX,
        ensures
            final(self).wf(),
            r == old(self).create_result(now, close_ts, resolution_ts),
            r is Err ==> *final(self) == *old(self),
            r is Ok ==> {
                &&& r->Ok_0 == old(self).markets@.len() + 1
                &&& final(self).config == old(self).config
                &&& final(self).next_market_id == old(self).next_market_id + 1
                &&& final(self).stakes == old(self).stakes
                &&& final(self).markets@ == old(self).markets@.push(Market {
                    id: r->Ok_0,
                    question,
                    creator,
                    close_ts,
                    resolution_ts,
                    resolved: false,
                    outcome: Outcome::Invalid,
                    yes_pool: 0,
                    no_pool: 0,
                })
            },
    {
        self.require_initialized()?;
        validate_market_timing(now, close_ts, resolution_ts)?;
        let id = self.next_market_id;
        let market = Market {
            id,
            question,
            creator,
            close_ts,
            resolution_ts,
            resolved: false,
            outcome: Outcome::Invalid,
            yes_pool: 0,
            no_pool: 0,
        };
        let ghost before = *self;
        self.markets.push(market);
        self.next_market_id = id + 1;
        proof {
            assert forall|j: int| 0 <= j < self.stakes@.len() implies #[trigger] self.stakes@[j].market_id != id by {
                assert(before.has_market(self.stakes@[j].market_id));
            }
            lemma_sum_absent(self.stakes@, id, true);
            lemma_sum_absent(self.stakes@, id, false);
            assert forall|i: int| 0 <= i < self.markets@.len() implies {
                &&& (#[trigger] self.markets@[i]).yes_pool == staked_sum(self.stakes@, (i + 1) as u32, true)
                &&& self.markets@[i].no_pool == staked_sum(self.stakes@, (i + 1) as u32, false)
            } by {
                if i < before.markets@.len() {
                    assert(self.markets@[i] == before.markets@[i]);
                }
            }
        }
        Ok(id)
    }

    /// Finds the entry that records the stake of `user` on market `market_id`.
    fn find_stake(&self, market_id: u32, user: &String) -> (r: Option<usize>)
        ensures
            match r {
                Some(k) => self.holds_stake(k as int, market_id, user@),
                None => forall|i: int| !self.holds_stake(i, market_id, user@),
            },
    {
        let mut i: usize = 0;
        while i < self.stakes.len()
            invariant
                i <= self.stakes@.len(),
                forall|j: int| 0 <= j < i ==> !self.holds_stake(j, market_id, user@),
            decreases self.stakes@.len() - i,
        {
            if self.stakes[i].market_id == market_id && self.stakes[i].user == *user {
                return Some(i);
            }
            i += 1;
        }
        None
    }

    /// The stake of `user` on market `market_id`; zero if the user never bet on it.
    pub fn get_stake(&self, market_id: u32, user: &String) -> (r: Stake)
        requires
            self.wf(),
        ensures
            r == self.stake(market_id, user@),
    {
        match self.find_stake(market_id, user) {
            Some(k) => {
                proof {
                    lemma_stake_at(self, k as int, market_id, user@);
                }
                self.stakes[k].stake
            },
            None => Stake::default(),
        }
    }

    /// What `bet` answers at time `now`.
    pub open spec fn bet_result(&self, now: u64, market_id: u32, amount: i128) -> Result<(), Error> {
        if !self.is_initialized() {
            Err(Error::NotInitialized)
        } else if amount <= 0 {
            Err(Error::InvalidAmount)
        } else if !self.has_market(market_id) {
            Err(Error::MarketNotFound)
        } else if now >= self.market(market_id).close_ts {
            Err(Error::BetsClosed)
        } else {
            Ok(())
        }
    }

    /// The pool that an accepted bet of `amount` grows stays within `i128`.
    pub open spec fn bet_fits(&self, now: u64, market_id: u32, side_yes: bool, amount: i128) -> bool {
        self.bet_result(now, market_id, amount) is Ok ==> if side_yes {
            self.market(market_id).yes_pool + amount <= i128::MAX
        } else {
            self.market(market_id).no_pool + amount <= i128::MAX
        }
    }

    /// Places a stake of `amount` on `Yes` (`side_yes`) or `No` of market
    /// `market_id` at time `now`, once the amount has been moved into the
    /// engine's custody. The caller has been authenticated as `user`. Pools
    /// are `i128`: an accepted bet must not overflow its pool.
    pub fn bet(&mut self, now: u64, user: String, market_id: u32, side_yes: bool, amount: i128) -> (r: Result<(), Error>)
        requires
            old(self).wf(),
            old(self).bet_fits(now, market_id, side_yes, amount),
        ensures
            final(self).wf(),
            r == old(self).bet_result(now, market_id, amount),
            r is Err ==> *final(self) == *old(self),
            r is Ok ==> {
                &&& final(self).config == old(self).config
                &&& final(self).next_market_id == old(self).next_market_id
                &&& final(self).markets@ == old(self).markets@.update(
                    market_id - 1,
                    market_after_bet(old(self).market(market_id), side_yes, amount),
                )
                &&& final(self).stake(market_id, user@) == stake_after_bet(old(self).stake(market_id, user@), side_yes, amount)
                &&& forall|id: u32, u: Seq<char>| !(id == market_id && u == user@)
                    ==> #[trigger] final(self).stake(id, u) == old(self).stake(id, u)
            },
    {
        self.require_initialized()?;
        validate_amount(amount)?;
        if market_id == 0 || market_id as usize > self.markets.len() {
            return Err(Error::MarketNotFound);
        }
        let idx = (market_id - 1) as usize;
        if now >= self.markets[idx].close_ts {
            return Err(Error::BetsClosed);
        }
        let found = self.find_stake(market_id, &user);
        let ghost before = *self;
        proof {
            assert(before.markets@[idx as int].yes_pool == staked_sum(before.stakes@, market_id, true));
            assert(before.markets@[idx as int].no_pool == staked_sum(before.stakes@, market_id, false));
        }
        if side_yes {
            self.markets[idx].yes_pool = self.markets[idx].yes_pool + amount;
        } else {
            self.markets[idx].no_pool = self.markets[idx].no_pool + amount;
        }
        let ghost k: int;
        match found {
            Some(j) => {
                proof {
                    k = j as int;
                    lemma_stake_at(&before, k, market_id, user@);
                }
                let old_stake = self.stakes[j].stake;
                if side_yes {
                    assert(old_stake.yes <= before.markets@[idx as int].yes_pool) by {
                        lemma_sum_bounds(before.stakes@, market_id, true);
                        assert(contribution(before.stakes@[k], market_id, true) == old_stake.yes);
                    }
                    self.stakes[j].stake.yes = old_stake.yes + amount;
                } else {
                    assert(old_stake.no <= before.markets@[idx as int].no_pool) by {
                        lemma_sum_bounds(before.stakes@, market_id, false);
                        assert(contribution(before.stakes@[k], market_id, false) == old_stake.no);
                    }
                    self.stakes[j].stake.no = old_stake.no + amount;
                }
                proof {
                    lemma_sum_update(before.stakes@, k, self.stakes@[k], market_id, true);
                    lemma_sum_update(before.stakes@, k, self.stakes@[k], market_id, false);
                    assert(self.stakes@ == before.stakes@.update(k, self.stakes@[k]));
                    assert(before.stakes@[k].stake.yes >= 0 && before.stakes@[k].stake.no >= 0);
                    assert(self.stakes@[k].stake.yes >= 0 && self.stakes@[k].stake.no >= 0);
                }
            },
            None => {
                let fresh = if side_yes {
                    Stake { yes: amount, no: 0, claimed: false }
                } else {
                    Stake { yes: 0, no: amount, claimed: false }
                };
                self.stakes.push(StakeEntry { market_id, user, stake: fresh });
                proof {
                    k = before.stakes@.len() as int;
                    lemma_sum_push(before.stakes@, self.stakes@[k], market_id, true);
                    lemma_sum_push(before.stakes@, self.stakes@[k], market_id, false);
                    assert(self.stakes@ == before.stakes@.push(self.stakes@[k]));
                    assert(forall|i: int| !before.holds_stake(i, market_id, user@));
                    assert(self.stakes@[k].stake.yes >= 0 && self.stakes@[k].stake.no >= 0);
                }
            },
        }
        proof {
            assert forall|i: int| 0 <= i < self.markets@.len() implies {
                &&& (#[trigger] self.markets@[i]).yes_pool == staked_sum(self.stakes@, (i + 1) as u32, true)
                &&& self.markets@[i].no_pool == staked_sum(self.stakes@, (i + 1) as u32, false)
            } by {
                assert(before.markets@[i].yes_pool == staked_sum(before.stakes@, (i + 1) as u32, true));
                assert(before.markets@[i].no_pool == staked_sum(before.stakes@, (i + 1) as u32, false));
                if i != idx as int {
                    if k < before.stakes@.len() {
                        lemma_sum_update(before.stakes@, k, self.stakes@[k], (i + 1) as u32, true);
                        lemma_sum_update(before.stakes@, k, self.stakes@[k], (i + 1) as u32, false);
                    } else {
                        lemma_sum_push(before.stakes@, self.stakes@[k], (i + 1) as u32, true);
                        lemma_sum_push(before.stakes@, self.stakes@[k], (i + 1) as u32, false);
                    }
                }
            }
            assert(self.stakes@.len() >= before.stakes@.len());
            assert forall|j: int| 0 <= j < self.stakes@.len() implies #[trigger] self.stakes@[j].stake.yes >= 0 && self.stakes@[j].stake.no >= 0 by {
                if j != k {
                    assert(self.stakes@[j] == before.stakes@[j]);
                    assert(before.stakes@[j].stake.yes >= 0 && before.stakes@[j].stake.no >= 0);
                }
            }
            assert forall|j: int| 0 <= j < self.stakes@.len() implies self.has_market(#[trigger] self.stakes@[j].market_id) by {
                if j != k {
                    assert(self.stakes@[j] == before.stakes@[j]);
                }
            }
            assert forall|j: int, l: int|
                0 <= j < self.stakes@.len() && 0 <= l < self.stakes@.len() && j != l
                    && (#[trigger] self.stakes@[j]).market_id == (#[trigger] self.stakes@[l]).market_id
                    implies self.stakes@[j].user@ != self.stakes@[l].user@ by {
                if j != k && l != k {
                    assert(self.stakes@[j] == before.stakes@[j]);
                    assert(self.stakes@[l] == before.stakes@[l]);
                } else {
                    let o = if j == k { l } else { j };
                    assert(self.stakes@[o] == before.stakes@[o]);
                    if self.stakes@[j].user@ == self.stakes@[l].user@ {
                        assert(before.holds_stake(o, market_id, user@));
                        if k < before.stakes@.len() {
                            assert(before.stakes@[k].market_id == before.stakes@[o].market_id);
                        }
                    }
                }
            }
            assert(self.markets@ =~= before.markets@.update(market_id - 1, market_after_bet(before.market(market_id), side_yes, amount)));
            lemma_stake_at(self, k, market_id, user@);
            lemma_frame(&before, self, k, market_id, user@);
        }
        Ok(())
    }

    /// What `resolve` answers at time `now` to a caller authenticated as `caller`.
    pub open spec fn resolve_result(&self, now: u64, caller: Seq<char>, market_id: u32) -> Result<(), Error> {
        if !self.is_initialized() {
            Err(Error::NotInitialized)
        } else if caller != self.config->Some_0.resolver@ {
            Err(Error::NotResolver)
        } else if !self.has_market(market_id) {
            Err(Error::MarketNotFound)
        } else if self.market(market_id).resolved {
            Err(Error::AlreadyResolved)
        } else if now < self.market(market_id).resolution_ts {
            Err(Error::InvalidTime)
        } else {
            Ok(())
        }
    }

    /// Settles market `market_id` on `outcome` at time `now`, once and for
    /// all. The caller has been authenticated as `caller`, which must be the
    /// configured resolver.
    pub fn resolve(&mut self, now: u64, caller: &String, market_id: u32, outcome: Outcome) -> (r: Result<(), Error>)
        requires
            old(self).wf(),
        ensures
            final(self).wf(),
            r == old(self).resolve_result(now, caller@, market_id),
            r is Err ==> *final(self) == *old(self),
            r is Ok ==> {
                &&& final(self).config == old(self).config
                &&& final(self).next_market_id == old(self).next_market_id
                &&& final(self).stakes == old(self).stakes
                &&& final(self).markets@ == old(self).markets@.update(
                    market_id - 1,
                    Market { resolved: true, outcome, ..old(self).market(market_id) },
                )
            },
    {
        self.require_initialized()?;
        let is_resolver = match &self.config {
            Some(c) => c.resolver == *caller,
            None => false,
        };
        if !is_resolver {
            return Err(Error::NotResolver);
        }
        if market_id == 0 || market_id as usize > self.markets.len() {
            return Err(Error::MarketNotFound);
        }
        let idx = (market_id - 1) as usize;
        if self.markets[idx].resolved {
            return Err(Error::AlreadyResolved);
        }
        if now < self.markets[idx].resolution_ts {
            return Err(Error::InvalidTime);
        }
        let ghost before = *self;
        self.markets[idx].resolved = true;
        self.markets[idx].outcome = outcome;
        proof {
            assert forall|i: int| 0 <= i < self.markets@.len() implies {
                &&& (#[trigger] self.markets@[i]).yes_pool == staked_sum(self.stakes@, (i + 1) as u32, true)
                &&& self.markets@[i].no_pool == staked_sum(self.stakes@, (i + 1) as u32, false)
            } by {
                assert(before.markets@[i].yes_pool == staked_sum(before.stakes@, (i + 1) as u32, true));
            }
            assert(self.markets@ =~= before.markets@.update(market_id - 1, Market { resolved: true, outcome, ..before.market(market_id) }));
        }
        Ok(())
    }

    /// The payout that `user` is owed on market `market_id`, as it stands.
    pub open spec fn owed(&self, market_id: u32, user: Seq<char>) -> int {
        payout_of(
            self.market(market_id).outcome,
            self.market(market_id).yes_pool as int,
            self.market(market_id).no_pool as int,
            self.stake(market_id, user).yes as int,
            self.stake(market_id, user).no as int,
        )
    }

    /// What `claim` answers.
    pub open spec fn claim_result(&self, market_id: u32, user: Seq<char>) -> Result<i128, Error> {
        if !self.is_initialized() {
            Err(Error::NotInitialized)
        } else if !self.has_market(market_id) {
            Err(Error::MarketNotFound)
        } else if !self.market(market_id).resolved {
            Err(Error::NotResolved)
        } else if self.stake(market_id, user).claimed || self.owed(market_id, user) == 0 {
            Err(Error::NothingToClaim)
        } else {
            Ok(self.owed(market_id, user) as i128)
        }
    }

    /// Where a claim gets as far as computing the payout of `user` on market
    /// `market_id`, the computation stays within `i128`.
    pub open spec fn claim_fits(&self, market_id: u32, user: Seq<char>) -> bool {
        self.has_market(market_id) && self.market(market_id).resolved && !self.stake(market_id, user).claimed
            ==> payout_fits(
            self.market(market_id).outcome,
            self.market(market_id).yes_pool as int,
            self.market(market_id).no_pool as int,
            self.stake(market_id, user).yes as int,
            self.stake(market_id, user).no as int,
        )
    }

    /// Pays `user` what it is owed on the resolved market `market_id`, once:
    /// the stake is marked claimed and the payout returned, to be released
    /// from custody. The caller has been authenticated as `user`. The product
    /// of the whole pool and the winning stake must fit in an `i128`.
    pub fn claim(&mut self, user: &String, market_id: u32) -> (r: Result<i128, Error>)
        requires
            old(self).wf(),
            old(self).claim_fits(market_id, user@),
        ensures
            final(self).wf(),
            r == old(self).claim_result(market_id, user@),
            r is Err ==> *final(self) == *old(self),
            r is Ok ==> {
                &&& final(self).config == old(self).config
                &&& final(self).next_market_id == old(self).next_market_id
                &&& final(self).markets == old(self).markets
                &&& final(self).stake(market_id, user@) == Stake { claimed: true, ..old(self).stake(market_id, user@) }
                &&& forall|id: u32, u: Seq<char>| !(id == market_id && u == user@)
                    ==> #[trigger] final(self).stake(id, u) == old(self).stake(id, u)
            },
    {
        self.require_initialized()?;
        if market_id == 0 || market_id as usize > self.markets.len() {
            return Err(Error::MarketNotFound);
        }
        let idx = (market_id - 1) as usize;
        if !self.markets[idx].resolved {
            return Err(Error::NotResolved);
        }
        let found = self.find_stake(market_id, user);
        let st = match found {
            Some(k) => {
                proof {
                    lemma_stake_at(self, k as int, market_id, user@);
                }
                self.stakes[k].stake
            },
            None => Stake::default(),
        };
        if st.claimed {
            return Err(Error::NothingToClaim);
        }
        proof {
            lemma_sum_bounds(self.stakes@, market_id, true);
            lemma_sum_bounds(self.stakes@, market_id, false);
            assert(self.markets@[idx as int].yes_pool == staked_sum(self.stakes@, market_id, true));
            assert(self.markets@[idx as int].no_pool == staked_sum(self.stakes@, market_id, false));
            if let Some(k) = found {
                assert(self.stakes@[k as int].stake.yes >= 0);
            }
        }
        let m = &self.markets[idx];
        let amount = payout(m.outcome, m.yes_pool, m.no_pool, &st);
        if amount == 0 {
            return Err(Error::NothingToClaim);
        }
        let k = found.unwrap();
        let ghost before = *self;
        self.stakes[k].stake.claimed = true;
        proof {
            let kk = k as int;
            assert(self.stakes@ == before.stakes@.update(kk, self.stakes@[kk]));
            assert forall|i: int| 0 <= i < self.markets@.len() implies {
                &&& (#[trigger] self.markets@[i]).yes_pool == staked_sum(self.stakes@, (i + 1) as u32, true)
                &&& self.markets@[i].no_pool == staked_sum(self.stakes@, (i + 1) as u32, false)
            } by {
                assert(before.markets@[i].yes_pool == staked_sum(before.stakes@, (i + 1) as u32, true));
                lemma_sum_update(before.stakes@, kk, self.stakes@[kk], (i + 1) as u32, true);
                lemma_sum_update(before.stakes@, kk, self.stakes@[kk], (i + 1) as u32, false);
            }
            assert forall|j: int| 0 <= j < self.stakes@.len() implies #[trigger] self.stakes@[j].stake.yes >= 0 && self.stakes@[j].stake.no >= 0 by {
                assert(before.stakes@[j].stake.yes >= 0);
            }
            assert forall|j: int| 0 <= j < self.stakes@.len() implies self.has_market(#[trigger] self.stakes@[j].market_id) by {
                assert(before.has_market(before.stakes@[j].market_id));
            }
            assert forall|j: int, l: int|
                0 <= j < self.stakes@.len() && 0 <= l < self.stakes@.len() && j != l
                    && (#[trigger] self.stakes@[j]).market_id == (#[trigger] self.stakes@[l]).market_id
                    implies self.stakes@[j].user@ != self.stakes@[l].user@ by {
                assert(before.stakes@[j].market_id == before.stakes@[l].market_id);
            }
            lemma_stake_at(self, kk, market_id, user@);
            lemma_frame(&before, self, kk, market_id, user@);
        }
        Ok(amount)
    }

    /// The market `market_id`.
    pub fn get_market(&self, market_id: u32) -> (r: Result<Market, Error>)
        ensures
            r == (if self.has_market(market_id) { Ok(self.market(market_id)) } else { Err(Error::MarketNotFound) }),
    {
        if market_id == 0 || market_id as usize > self.markets.len() {
            return Err(Error::MarketNotFound);
        }
        let m = &self.markets[(market_id - 1) as usize];
        Ok(Market {
            id: m.id,
            question: m.question.clone(),
            creator: m.creator.clone(),
            close_ts: m.close_ts,
            resolution_ts: m.resolution_ts,
            resolved: m.resolved,
            outcome: m.outcome,
            yes_pool: m.yes_pool,
            no_pool: m.no_pool,
        })
    }

    /// The odds of `Yes` on market `market_id` in basis points. The whole
    /// pool, and the `Yes` pool times 10000, must fit in an `i128`.
    pub fn get_odds(&self, market_id: u32) -> (r: Result<u32, Error>)
        requires
            self.wf(),
            self.has_market(market_id) ==> odds_fit(
                self.market(market_id).yes_pool as int,
                self.market(market_id).no_pool as int,
            ),
        ensures
            r == (if self.has_market(market_id) {
                Ok(odds_of(self.market(market_id).yes_pool as int, self.market(market_id).no_pool as int) as u32)
            } else {
                Err(Error::MarketNotFound)
            }),
            r matches Ok(v) ==> v <= 10000,
    {
        if market_id == 0 || market_id as usize > self.markets.len() {
            return Err(Error::MarketNotFound);
        }
        let m = &self.markets[(market_id - 1) as usize];
        proof {
            lemma_sum_bounds(self.stakes@, market_id, true);
            lemma_sum_bounds(self.stakes@, market_id, false);
            assert(self.markets@[market_id - 1].yes_pool == staked_sum(self.stakes@, market_id, true));
            assert(self.markets@[market_id - 1].no_pool == staked_sum(self.stakes@, market_id, false));
        }
        Ok(odds(m.yes_pool, m.no_pool))
    }

    pub fn get_admin(&self) -> (r: Result<String, Error>)
        ensures
            r == (match self.config {
                Some(c) => Ok(c.admin),
                None => Err(Error::NotInitialized),
            }),
    {
        match &self.config {
            Some(c) => Ok(c.admin.clone()),
            None => Err(Error::NotInitialized),
        }
    }

    pub fn get_resolver(&self) -> (r: Result<String, Error>)
        ensures
            r == (match self.config {
                Some(c) => Ok(c.resolver),
                None => Err(Error::NotInitialized),
            }),
    {
        match &self.config {
            Some(c) => Ok(c.resolver.clone()),
            None => Err(Error::NotInitialized),
        }
    }

    /// The asset that stakes are paid in.
    pub fn get_kale_token(&self) -> (r: Result<String, Error>)
        ensures
            r == (match self.config {
                Some(c) => Ok(c.token),
                None => Err(Error::NotInitialized),
            }),
    {
        match &self.config {
            Some(c) => Ok(c.token.clone()),
            None => Err(Error::NotInitialized),
        }
    }

    /// The asset that stakes are paid in, under the name front ends use.
    pub fn get_kale_sac_address(&self) -> (r: Result<String, Error>)
        ensures
            r == (match self.config {
                Some(c) => Ok(c.token),
                None => Err(Error::NotInitialized),
            }),
    {
        self.get_kale_token()
    }

    /// A participant's balance of the staking asset, as the asset ledger
    /// reported it (`balance`), once the engine is initialized.
    pub fn get_kale_balance(&self, balance: i128) -> (r: Result<i128, Error>)
        ensures
            r == (if self.is_initialized() { Ok(balance) } else { Err(Error::NotInitialized) }),
    {
        self.require_initialized()?;
        Ok(balance)
    }

    /// Whether a participant whose balance is `balance` can afford a stake of `amount`.
    pub fn can_bet(&self, balance: i128, amount: i128) -> (r: Result<bool, Error>)
        ensures
            r == (if self.is_initialized() { Ok(balance >= amount) } else { Err(Error::NotInitialized) }),
    {
        let balance = self.get_kale_balance(balance)?;
        Ok(balance >= amount)
    }

    /// Everything the engine holds in custody, as the asset ledger reported
    /// the engine's own balance (`custody_balance`).
    pub fn get_total_locked_kale(&self, custody_balance: i128) -> (r: Result<i128, Error>)
        ensures
            r == (if self.is_initialized() { Ok(custody_balance) } else { Err(Error::NotInitialized) }),
    {
        self.require_initialized()?;
        Ok(custody_balance)
    }
}

/// The market after a bet of `amount` on `Yes` (`side_yes`) or `No`.
pub open spec fn market_after_bet(m: Market, side_yes: bool, amount: i128) -> Market {
    if side_yes {
        Market { yes_pool: (m.yes_pool + amount) as i128, ..m }
    } else {
        Market { no_pool: (m.no_pool + amount) as i128, ..m }
    }
}

/// The stake after a bet of `amount` on `Yes` (`side_yes`) or `No`.
pub open spec fn stake_after_bet(st: Stake, side_yes: bool, amount: i128) -> Stake {
    if side_yes {
        Stake { yes: (st.yes + amount) as i128, ..st }
    } else {
        Stake { no: (st.no + amount) as i128, ..st }
    }
}

/// Keys are unique, so the stake of a key is the one its entry holds.
proof fn lemma_stake_at(s: &FarmersMarket, k: int, id: u32, user: Seq<char>)
    requires
        s.wf(),
        s.holds_stake(k, id, user),
    ensures
        s.stake(id, user) == s.stakes@[k].stake,
{
    let c = choose|i: int| s.holds_stake(i, id, user);
    assert(s.holds_stake(c, id, user));
    if c != k {
        assert(s.stakes@[c].market_id == s.stakes@[k].market_id);
    }
}

/// When `after` only changes the entry `k` of the key `(id, user)` (or adds
/// it as its last entry), every other key keeps its stake.
proof fn lemma_frame(before: &FarmersMarket, after: &FarmersMarket, k: int, id: u32, user: Seq<char>)
    requires
        before.wf(),
        after.wf(),
        after.holds_stake(k, id, user),
        k <= before.stakes@.len(),
        k < before.stakes@.len() ==> before.holds_stake(k, id, user),
        after.stakes@.len() == if k == before.stakes@.len() { k + 1 } else { before.stakes@.len() as int },
        forall|i: int| 0 <= i < before.stakes@.len() && i != k ==> after.stakes@[i] == before.stakes@[i],
    ensures
        forall|id2: u32, u2: Seq<char>| !(id2 == id && u2 == user)
            ==> #[trigger] after.stake(id2, u2) == before.stake(id2, u2),
{
    assert forall|id2: u32, u2: Seq<char>| !(id2 == id && u2 == user)
        implies #[trigger] after.stake(id2, u2) == before.stake(id2, u2) by {
        if exists|i: int| before.holds_stake(i, id2, u2) {
            let i = choose|i: int| before.holds_stake(i, id2, u2);
            if i == k {
                assert(after.stakes@[k].market_id == id);
            }
            assert(after.holds_stake(i, id2, u2));
            lemma_stake_at(before, i, id2, u2);
            lemma_stake_at(after, i, id2, u2);
        } else {
            assert forall|i: int| !after.holds_stake(i, id2, u2) by {
                if after.holds_stake(i, id2, u2) && i != k {
                    assert(before.holds_stake(i, id2, u2));
                }
            }
        }
    }
}

} // verus!
