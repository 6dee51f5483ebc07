use vstd::prelude::*;

verus! {

/// Every way an operation of the engine can fail. Each variant has a stable
/// numeric code, given by [`Error::code`].
#[derive(Clone, Copy, Debug, PartialEq, Eq, Structural, PartialOrd, Ord)]
pub enum Error {
    NotInitialized,
    AlreadyInitialized,
    NotResolver,
    /// Reserved for operations restricted to the administrator; none exists yet.
    NotAdmin,
    /// Reserved; closing of betting is reported as `BetsClosed`.
    MarketClosed,
    BetsClosed,
    AlreadyResolved,
    NotResolved,
    NothingToClaim,
    InvalidAmount,
    InvalidTime,
    MarketNotFound,
}

impl Error {
    /// The stable numeric code of the error, from 1 to 12 in declaration order.
    pub open spec fn spec_code(self) -> u32 {
        match self {
            Error::NotInitialized => 1,
            Error::AlreadyInitialized => 2,
            Error::NotResolver => 3,
            Error::NotAdmin => 4,
            Error::MarketClosed => 5,
            Error::BetsClosed => 6,
            Error::AlreadyResolved => 7,
            Error::NotResolved => 8,
            Error::NothingToClaim => 9,
            Error::InvalidAmount => 10,
            Error::InvalidTime => 11,
            Error::MarketNotFound => 12,
        }
    }

    pub fn code(self) -> (r: u32)
        ensures
            r == self.spec_code(),
    {
        match self {
            Error::NotInitialized => 1,
            Error::AlreadyInitialized => 2,
            Error::NotResolver => 3,
            Error::NotAdmin => 4,
            Error::MarketClosed => 5,
            Error::BetsClosed => 6,
            Error::AlreadyResolved => 7,
            Error::NotResolved => 8,
            Error::NothingToClaim => 9,
            Error::InvalidAmount => 10,
            Error::InvalidTime => 11,
            Error::MarketNotFound => 12,
        }
    }
}

/// The outcome a market is resolved to. `Invalid` refunds every stake; it is
/// also the placeholder outcome of a market that is not resolved yet.
#[derive(Clone, Copy, Debug, PartialEq, Eq, Structural)]
pub enum Outcome {
    Yes,
    No,
    Invalid,
}

/// What one participant has staked on one market.
#[derive(Clone, Copy, Debug, PartialEq, Eq, Structural)]
pub struct Stake {
    pub yes: i128,
    pub no: i128,
    /// Set once the participant has been paid; never cleared.
    pub claimed: bool,
}

impl Stake {
    /// The stake of a participant who has not bet.
    pub open spec fn zero() -> Stake {
        Stake { yes: 0, no: 0, claimed: false }
    }
}

impl Default for Stake {
    fn default() -> (r: Stake)
        ensures
            r == Stake::zero(),
    {
        Stake { yes: 0, no: 0, claimed: false }
    }
}

/// A market on a yes/no question. Identities are account keys in text form.
#[derive(Clone, Debug, PartialEq, Eq)]
pub struct Market {
    pub id: u32,
    pub question: String,
    pub creator: String,
    /// Betting is open while the time is below this.
    pub close_ts: u64,
    /// Resolution is allowed from this time on; it lies after `close_ts`.
    pub resolution_ts: u64,
    pub resolved: bool,
    /// Meaningful only once `resolved` holds.
    pub outcome: Outcome,
    pub yes_pool: i128,
    pub no_pool: i128,
}

/// Rejects a stake amount that is not positive.
pub fn validate_amount(amount: i128) -> (r: Result<(), Error>)
    ensures
        r == (if amount <= 0 { Err(Error::InvalidAmount) } else { Ok(()) }),
{
    if amount <= 0 {
        return Err(Error::InvalidAmount);
    }
    Ok(())
}

/// Checks the two deadlines of a new market against the time `now`: betting
/// must close in the future and resolution must come strictly after it.
pub fn validate_market_timing(now: u64, close_ts: u64, resolution_ts: u64) -> (r: Result<(), Error>)
    ensures
        r == (if close_ts <= now || resolution_ts <= close_ts {
            Err(Error::InvalidTime)
        } else {
            Ok(())
        }),
{
    if close_ts <= now {
        return Err(Error::InvalidTime);
    }
    if resolution_ts <= close_ts {
        return Err(Error::InvalidTime);
    }
    Ok(())
}

} // verus!
