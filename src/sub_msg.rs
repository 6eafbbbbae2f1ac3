use vstd::prelude::*;

verus! {

/// The payload that instantiates a subscription contract.
#[derive(Clone, Debug, PartialEq, Eq)]
pub struct SubInstantiateMsg {
    pub admin: String,
    pub lp: String,
    pub commitment_denom: String,
    pub investment_denom: String,
    pub capital_denom: String,
    pub capital_per_share: u64,
    pub initial_commitment: Option<u64>,
}

/// Queries that a subscription contract answers.
#[derive(Clone, Copy, Debug, PartialEq, Eq, Structural)]
pub enum SubQueryMsg {
    GetState {},
    GetTerms {},
    GetTransactions {},
}

/// What a subscription contract reports of itself.
#[derive(Clone, Debug, PartialEq, Eq)]
pub struct SubState {
    pub admin: String,
    pub lp: String,
    pub raise: String,
    pub commitment_denom: String,
    pub investment_denom: String,
    pub capital_denom: String,
    pub capital_per_share: u64,
}

/// The terms a subscription contract was made with.
#[derive(Clone, Debug, PartialEq, Eq)]
pub struct SubTerms {
    pub lp: String,
    pub raise: String,
    pub capital_denom: String,
    pub min_commitment: u64,
    pub max_commitment: u64,
}

} // verus!
