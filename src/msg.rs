use vstd::prelude::*;

use crate::sub_msg::SubInstantiateMsg;

verus! {

/// A queued exchange between the raise and one subscription. Each amount is
/// signed: positive flows to the subscription, negative flows from it. `date`
/// is the earliest epoch second at which the exchange may settle.
#[derive(Clone, Copy, Debug, PartialEq, Eq, Structural)]
pub struct AssetExchange {
    pub investment: Option<i64>,
    pub commitment_in_shares: Option<i64>,
    pub capital: Option<i64>,
    pub date: Option<u64>,
}

/// An outstanding exit: the subscription surrenders `asset` investment tokens
/// and receives `capital`, not before `available_epoch_seconds` when set.
#[derive(Clone, Debug, PartialEq, Eq)]
pub struct Redemption {
    pub subscription: String,
    pub capital: u64,
    pub asset: u64,
    pub available_epoch_seconds: Option<u64>,
}

impl Redemption {
    /// Whether this record is the one addressed by (subscription, asset, capital).
    pub open spec fn spec_matches(&self, subscription: Seq<char>, asset: u64, capital: u64) -> bool {
        &&& self.subscription@ == subscription
        &&& self.asset == asset
        &&& self.capital == capital
    }

    pub fn matches(&self, subscription: &String, asset: u64, capital: u64) -> (r: bool)
        ensures
            r == self.spec_matches(subscription@, asset, capital),
    {
        self.asset == asset && self.capital == capital && self.subscription == *subscription
    }

    /// A field-for-field copy.
    pub fn duplicate(&self) -> (r: Redemption)
        ensures
            r == *self,
    {
        Redemption {
            subscription: self.subscription.clone(),
            capital: self.capital,
            asset: self.asset,
            available_epoch_seconds: self.available_epoch_seconds,
        }
    }
}

/// The gp's decision to accept one subscription for an amount of capital.
#[derive(Clone, Debug, PartialEq, Eq)]
pub struct AcceptSubscription {
    pub subscription: String,
    pub commitment_in_capital: u64,
}

/// Funds attached to a call.
#[derive(Clone, Debug, PartialEq, Eq)]
pub struct Coin {
    pub denom: String,
    pub amount: u128,
}

/// An effect that the host carries out after a handler returns.
#[derive(Clone, Debug, PartialEq, Eq)]
pub enum HostMsg {
    /// Sends coins held by the raise to an address.
    Send { to_address: String, denom: String, amount: u128 },
    /// Mints new supply of a denom into its marker.
    Mint { denom: String, amount: u128 },
    /// Burns supply of a denom held by its marker.
    Burn { denom: String, amount: u128 },
    /// Withdraws coins of a denom from its marker to an address.
    Withdraw { denom: String, amount: u128, to_address: String },
    /// Moves coins of a denom from an address into the denom's marker.
    Deposit { denom: String, amount: u128, from_address: String },
    /// Moves coins of a denom from one address to another.
    Transfer { denom: String, amount: u128, from_address: String, to_address: String },
    /// Instantiates a subscription contract; the reply carries `reply_id`.
    Instantiate {
        admin: String,
        code_id: u64,
        msg: SubInstantiateMsg,
        label: String,
        reply_id: u64,
    },
}

/// A key and value reported alongside a response.
#[derive(Clone, Debug, PartialEq, Eq)]
pub struct Attribute {
    pub key: String,
    pub value: String,
}

/// What a successful handler hands back to the host.
#[derive(Clone, Debug, PartialEq, Eq)]
pub struct Response {
    pub messages: Vec<HostMsg>,
    pub attributes: Vec<Attribute>,
}

impl Response {
    pub fn new() -> (r: Response)
        ensures
            r.messages@.len() == 0,
            r.attributes@.len() == 0,
    {
        Response { messages: Vec::new(), attributes: Vec::new() }
    }
}

/// Why a handler refused to act.
#[derive(Clone, Copy, Debug, PartialEq, Eq, Structural)]
pub enum ContractError {
    /// The sender is not the gp.
    Unauthorized,
    /// The accepted capital is not a whole number of shares.
    NotEvenlyDivisible,
    /// The share count does not fit a signed amount.
    SharesOverflow,
    /// The subscription is neither pending nor eligible.
    NotPendingOrEligible,
    /// The subscription's lp holds none of the acceptable accreditations.
    MissingAccreditation,
    /// The subscription still holds commitment.
    RemainingCommitment,
    /// The subscription is in none of the registry's sets.
    NothingToClose,
    /// The subscription is not accepted.
    NotAccepted,
    /// A subscription address is already registered.
    AlreadyRegistered,
    /// No queued exchange equals the one named.
    ExchangeNotFound,
    /// A date or availability time lies in the future.
    NotYetAvailable,
    /// No outstanding redemption list exists.
    NoOutstandingRedemptions,
    /// No outstanding redemption matches.
    RedemptionNotFound,
    /// No funds were attached.
    AssetRequired,
    /// More than one coin was attached.
    SingleCoinRequired,
    /// The attached coin is not of the investment denom.
    WrongDenom,
    /// The attached amount differs from the redemption's asset.
    WrongAmount,
}

} // verus!
