use farmers_market::{Error, FarmersMarket, Outcome, Stake};

const QUESTION: &str = "Will it rain tomorrow?";

fn id(s: &str) -> String {
    String::from(s)
}

/// Initializes the engine and opens one market at time `now`, closing an
/// hour later and resolvable two hours later.
fn setup_test_market(m: &mut FarmersMarket, now: u64, admin: &str, resolver: &str, token: &str, creator: &str) -> u32 {
    m.init(id(admin), id(resolver), id(token)).unwrap();
    let close_ts = now + 3600;
    let resolution_ts = now + 7200;
    m.create_market(now, id(creator), id(QUESTION), close_ts, resolution_ts).unwrap()
}

#[test]
fn test_init_contract() {
    let mut m = FarmersMarket::new();
    m.init(id("ADMIN"), id("RESOLVER"), id("KALE")).unwrap();
    assert_eq!(m.get_admin(), Ok(id("ADMIN")));
    assert_eq!(m.get_resolver(), Ok(id("RESOLVER")));
    assert_eq!(m.get_kale_token(), Ok(id("KALE")));
}

#[test]
fn test_create_market() {
    let mut m = FarmersMarket::new();
    let market_id = setup_test_market(&mut m, 0, "ADMIN", "RESOLVER", "KALE", "CREATOR");
    let market = m.get_market(market_id).unwrap();
    assert_eq!(market.id, market_id);
    assert_eq!(market.creator, id("CREATOR"));
    assert_eq!(market.question, id("Will it rain tomorrow?"));
    assert!(!market.resolved);
    assert_eq!(market.yes_pool, 0);
    assert_eq!(market.no_pool, 0);
}

#[test]
fn test_bet_functionality() {
    let mut m = FarmersMarket::new();
    let market_id = setup_test_market(&mut m, 0, "ADMIN", "RESOLVER", "KALE", "CREATOR");
    let bet_amount = 1000i128;
    m.bet(0, id("BETTOR"), market_id, true, bet_amount).unwrap();
    let market = m.get_market(market_id).unwrap();
    assert_eq!(market.yes_pool, bet_amount);
    assert_eq!(market.no_pool, 0);
    let stake = m.get_stake(market_id, &id("BETTOR"));
    assert_eq!(stake.yes, bet_amount);
    assert_eq!(stake.no, 0);
    assert!(!stake.claimed);
}

#[test]
fn test_resolve_and_claim() {
    let mut m = FarmersMarket::new();
    let market_id = setup_test_market(&mut m, 0, "ADMIN", "RESOLVER", "KALE", "CREATOR");
    let bet_amount = 1000i128;
    m.bet(0, id("BETTOR"), market_id, true, bet_amount).unwrap();
    let now = 7300;
    m.resolve(now, &id("RESOLVER"), market_id, Outcome::Yes).unwrap();
    let market = m.get_market(market_id).unwrap();
    assert!(market.resolved);
    assert_eq!(market.outcome, Outcome::Yes);
    let payout = m.claim(&id("BETTOR"), market_id).unwrap();
    assert_eq!(payout, bet_amount);
    let stake = m.get_stake(market_id, &id("BETTOR"));
    assert!(stake.claimed);
}

#[test]
fn test_odds_calculation() {
    let mut m = FarmersMarket::new();
    let market_id = setup_test_market(&mut m, 0, "ADMIN", "RESOLVER", "KALE", "CREATOR");
    assert_eq!(m.get_odds(market_id), Ok(5000));
    m.bet(0, id("BETTOR1"), market_id, true, 1000).unwrap();
    m.bet(0, id("BETTOR2"), market_id, false, 3000).unwrap();
    assert_eq!(m.get_odds(market_id), Ok(2500));
}

#[test]
fn test_invalid_operations() {
    let mut m = FarmersMarket::new();
    assert_eq!(m.bet(0, id("BETTOR"), 1, true, 500), Err(Error::NotInitialized));
    let market_id = setup_test_market(&mut m, 0, "ADMIN", "RESOLVER", "KALE", "CREATOR");
    m.bet(0, id("BETTOR"), market_id, true, 500).unwrap();
    let now = 7300;
    m.resolve(now, &id("RESOLVER"), market_id, Outcome::Yes).unwrap();
    let _payout = m.claim(&id("BETTOR"), market_id).unwrap();
}

#[test]
fn test_kale_integration_functions() {
    let mut m = FarmersMarket::new();
    let market_id = setup_test_market(&mut m, 0, "ADMIN", "RESOLVER", "KALE", "CREATOR");
    // Balances as the asset ledger reports them.
    let kale_amount = 5000i128;
    assert_eq!(m.get_kale_balance(kale_amount), Ok(kale_amount));
    assert_eq!(m.can_bet(kale_amount, 1000), Ok(true));
    assert_eq!(m.can_bet(kale_amount, 10000), Ok(false));
    let mut custody = 0i128;
    assert_eq!(m.get_total_locked_kale(custody), Ok(0));
    m.bet(0, id("USER"), market_id, true, 1000).unwrap();
    custody += 1000;
    assert_eq!(m.get_total_locked_kale(custody), Ok(1000));
    assert_eq!(m.get_kale_sac_address(), Ok(id("KALE")));
}

#[test]
fn sole_staker_claims_whole_pool_once() {
    let mut m = FarmersMarket::new();
    let now = 100;
    let market_id = setup_test_market(&mut m, now, "ADMIN", "RESOLVER", "X", "CREATOR");
    m.bet(now, id("BETTOR"), market_id, true, 1000).unwrap();
    let later = now + 7201;
    m.resolve(later, &id("RESOLVER"), market_id, Outcome::Yes).unwrap();
    assert_eq!(m.claim(&id("BETTOR"), market_id), Ok(1000));
    assert_eq!(m.claim(&id("BETTOR"), market_id), Err(Error::NothingToClaim));
}

#[test]
fn no_side_wins_whole_pool_and_loser_gets_nothing() {
    let mut m = FarmersMarket::new();
    let market_id = setup_test_market(&mut m, 0, "ADMIN", "RESOLVER", "KALE", "CREATOR");
    m.bet(0, id("A"), market_id, true, 1000).unwrap();
    m.bet(0, id("B"), market_id, false, 3000).unwrap();
    m.resolve(7200, &id("RESOLVER"), market_id, Outcome::No).unwrap();
    assert_eq!(m.claim(&id("B"), market_id), Ok(4000));
    assert_eq!(m.claim(&id("A"), market_id), Err(Error::NothingToClaim));
    assert!(m.get_stake(market_id, &id("B")).claimed);
    assert!(!m.get_stake(market_id, &id("A")).claimed);
}

#[test]
fn invalid_outcome_refunds_everything() {
    let mut m = FarmersMarket::new();
    let market_id = setup_test_market(&mut m, 0, "ADMIN", "RESOLVER", "KALE", "CREATOR");
    m.bet(0, id("A"), market_id, true, 700).unwrap();
    m.bet(0, id("A"), market_id, false, 300).unwrap();
    m.bet(0, id("B"), market_id, false, 2500).unwrap();
    m.resolve(8000, &id("RESOLVER"), market_id, Outcome::Invalid).unwrap();
    let a = m.claim(&id("A"), market_id).unwrap();
    let b = m.claim(&id("B"), market_id).unwrap();
    assert_eq!(a, 1000);
    assert_eq!(b, 2500);
    assert_eq!(a + b, 3500);
}

#[test]
fn pools_track_sum_of_stakes() {
    let mut m = FarmersMarket::new();
    let market_id = setup_test_market(&mut m, 0, "ADMIN", "RESOLVER", "KALE", "CREATOR");
    let other = m.create_market(0, id("CREATOR"), id("Other?"), 10, 20).unwrap();
    assert_eq!(other, 2);
    m.bet(0, id("A"), market_id, true, 10).unwrap();
    m.bet(0, id("A"), market_id, true, 15).unwrap();
    m.bet(0, id("B"), market_id, true, 5).unwrap();
    m.bet(0, id("B"), market_id, false, 7).unwrap();
    m.bet(0, id("A"), other, false, 40).unwrap();
    let market = m.get_market(market_id).unwrap();
    let a = m.get_stake(market_id, &id("A"));
    let b = m.get_stake(market_id, &id("B"));
    assert_eq!(market.yes_pool, a.yes + b.yes);
    assert_eq!(market.no_pool, a.no + b.no);
    assert_eq!(market.yes_pool, 30);
    assert_eq!(market.no_pool, 7);
    assert_eq!(m.get_market(other).unwrap().no_pool, 40);
}

#[test]
fn proportional_payouts_round_down() {
    let mut m = FarmersMarket::new();
    let market_id = setup_test_market(&mut m, 0, "ADMIN", "RESOLVER", "KALE", "CREATOR");
    m.bet(0, id("A"), market_id, true, 1).unwrap();
    m.bet(0, id("B"), market_id, true, 2).unwrap();
    m.bet(0, id("C"), market_id, false, 8).unwrap();
    m.resolve(7200, &id("RESOLVER"), market_id, Outcome::Yes).unwrap();
    // Whole pool 11 over a winning pool of 3.
    assert_eq!(m.claim(&id("A"), market_id), Ok(3));
    assert_eq!(m.claim(&id("B"), market_id), Ok(7));
    assert_eq!(m.claim(&id("C"), market_id), Err(Error::NothingToClaim));
}

#[test]
fn timing_guard_refuses_bad_deadlines() {
    let mut m = FarmersMarket::new();
    m.init(id("ADMIN"), id("RESOLVER"), id("KALE")).unwrap();
    assert_eq!(m.create_market(100, id("C"), id(QUESTION), 100, 200), Err(Error::InvalidTime));
    assert_eq!(m.create_market(100, id("C"), id(QUESTION), 50, 200), Err(Error::InvalidTime));
    assert_eq!(m.create_market(100, id("C"), id(QUESTION), 150, 150), Err(Error::InvalidTime));
    assert_eq!(m.create_market(100, id("C"), id(QUESTION), 150, 140), Err(Error::InvalidTime));
    assert_eq!(m.get_market(1), Err(Error::MarketNotFound));
    assert_eq!(m.create_market(100, id("C"), id(QUESTION), 101, 102), Ok(1));
}

#[test]
fn errors_before_initialization() {
    let mut m = FarmersMarket::new();
    assert_eq!(m.create_market(0, id("C"), id(QUESTION), 10, 20), Err(Error::NotInitialized));
    assert_eq!(m.resolve(0, &id("R"), 1, Outcome::Yes), Err(Error::NotInitialized));
    assert_eq!(m.claim(&id("U"), 1), Err(Error::NotInitialized));
    assert_eq!(m.get_admin(), Err(Error::NotInitialized));
    assert_eq!(m.get_resolver(), Err(Error::NotInitialized));
    assert_eq!(m.get_kale_sac_address(), Err(Error::NotInitialized));
    assert_eq!(m.get_kale_balance(5), Err(Error::NotInitialized));
    assert_eq!(m.can_bet(5, 1), Err(Error::NotInitialized));
    assert_eq!(m.get_total_locked_kale(5), Err(Error::NotInitialized));
}

#[test]
fn second_initialization_is_refused() {
    let mut m = FarmersMarket::new();
    m.init(id("ADMIN"), id("RESOLVER"), id("KALE")).unwrap();
    assert_eq!(m.init(id("OTHER"), id("OTHER"), id("OTHER")), Err(Error::AlreadyInitialized));
    assert_eq!(m.get_admin(), Ok(id("ADMIN")));
}

#[test]
fn betting_errors() {
    let mut m = FarmersMarket::new();
    let market_id = setup_test_market(&mut m, 0, "ADMIN", "RESOLVER", "KALE", "CREATOR");
    assert_eq!(m.bet(0, id("U"), market_id, true, 0), Err(Error::InvalidAmount));
    assert_eq!(m.bet(0, id("U"), market_id, true, -5), Err(Error::InvalidAmount));
    assert_eq!(m.bet(0, id("U"), 9, true, 5), Err(Error::MarketNotFound));
    assert_eq!(m.bet(0, id("U"), 0, true, 5), Err(Error::MarketNotFound));
    assert_eq!(m.bet(3600, id("U"), market_id, true, 5), Err(Error::BetsClosed));
    assert_eq!(m.bet(3599, id("U"), market_id, false, 5), Ok(()));
    assert_eq!(m.get_market(market_id).unwrap().no_pool, 5);
}

#[test]
fn resolution_errors() {
    let mut m = FarmersMarket::new();
    let market_id = setup_test_market(&mut m, 0, "ADMIN", "RESOLVER", "KALE", "CREATOR");
    assert_eq!(m.resolve(7200, &id("ADMIN"), market_id, Outcome::Yes), Err(Error::NotResolver));
    assert_eq!(m.resolve(7200, &id("RESOLVER"), 5, Outcome::Yes), Err(Error::MarketNotFound));
    assert_eq!(m.resolve(7199, &id("RESOLVER"), market_id, Outcome::Yes), Err(Error::InvalidTime));
    assert_eq!(m.claim(&id("U"), market_id), Err(Error::NotResolved));
    assert_eq!(m.claim(&id("U"), 5), Err(Error::MarketNotFound));
    assert_eq!(m.resolve(7200, &id("RESOLVER"), market_id, Outcome::No), Ok(()));
    assert_eq!(m.resolve(9000, &id("RESOLVER"), market_id, Outcome::Yes), Err(Error::AlreadyResolved));
    assert_eq!(m.get_market(market_id).unwrap().outcome, Outcome::No);
    assert_eq!(m.claim(&id("NOBODY"), market_id), Err(Error::NothingToClaim));
}

#[test]
fn unknown_stake_is_zero() {
    let m = FarmersMarket::new();
    assert_eq!(m.get_stake(3, &id("U")), Stake { yes: 0, no: 0, claimed: false });
    assert_eq!(Stake::default(), Stake { yes: 0, no: 0, claimed: false });
    assert_eq!(m.get_odds(1), Err(Error::MarketNotFound));
}
