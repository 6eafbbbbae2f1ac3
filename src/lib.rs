//! The ledger of a capital raise: the lifecycle of its subscriptions, the
//! queues of asset exchanges awaiting settlement, and the redemptions owed.
//! Handlers are pure transitions on a `Raise`; what the host must do comes
//! back as `HostMsg` values, and what it must be asked (balances, attributes,
//! marker addresses) comes in as arguments.
pub mod exchange;
pub mod msg;
pub mod redemption;
pub mod state;
pub mod sub_msg;
pub mod subscribe;
