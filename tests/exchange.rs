use raise::exchange::{
    try_cancel_asset_exchanges, try_complete_asset_exchange, try_issue_asset_exchanges,
};
use raise::msg::{AssetExchange, ContractError, HostMsg};
use raise::state::{AcceptedSubscription, Raise, State};

fn st(v: &str) -> String {
    v.to_string()
}

fn accepted_raise(queue: Vec<AssetExchange>) -> Raise {
    let mut r = Raise::new(State {
        gp: st("gp"),
        recovery_admin: st("marketpalace"),
        subscription_code_id: 100,
        capital_denom: st("stable_coin"),
        commitment_denom: st("commitment_coin"),
        investment_denom: st("investment_coin"),
        capital_per_share: 100,
        acceptable_accreditations: vec![],
    });
    r.accepted = vec![AcceptedSubscription { subscription: st("sub_1"), exchanges: queue }];
    r
}

fn ex(investment: Option<i64>, shares: Option<i64>, capital: Option<i64>, date: Option<u64>) -> AssetExchange {
    AssetExchange { investment, commitment_in_shares: shares, capital, date }
}

#[test]
fn issue_appends_to_queue() {
    let first = ex(None, Some(200), None, None);
    let second = ex(Some(50), Some(-50), Some(-5_000), None);
    let mut r = accepted_raise(vec![first]);
    try_issue_asset_exchanges(&mut r, &st("gp"), &st("sub_1"), vec![second]).unwrap();
    assert_eq!(vec![first, second], r.accepted[0].exchanges);
}

#[test]
fn issue_requires_gp_and_accepted() {
    let mut r = accepted_raise(vec![]);
    let e = ex(None, Some(1), None, None);
    assert_eq!(
        Err(ContractError::Unauthorized),
        try_issue_asset_exchanges(&mut r, &st("bad_actor"), &st("sub_1"), vec![e])
    );
    assert_eq!(
        Err(ContractError::NotAccepted),
        try_issue_asset_exchanges(&mut r, &st("gp"), &st("sub_2"), vec![e])
    );
    assert!(r.accepted[0].exchanges.is_empty());
}

#[test]
fn cancel_removes_first_equal_entry() {
    let a = ex(None, Some(1), None, None);
    let b = ex(None, Some(1), None, Some(10));
    let mut r = accepted_raise(vec![a, b, a]);
    try_cancel_asset_exchanges(&mut r, &st("gp"), &st("sub_1"), vec![a]).unwrap();
    assert_eq!(vec![b, a], r.accepted[0].exchanges);
}

#[test]
fn cancel_entries_differing_by_date_are_distinct() {
    let a = ex(None, Some(1), None, None);
    let b = ex(None, Some(1), None, Some(10));
    let mut r = accepted_raise(vec![a]);
    let before = r.clone();
    assert_eq!(
        Err(ContractError::ExchangeNotFound),
        try_cancel_asset_exchanges(&mut r, &st("gp"), &st("sub_1"), vec![b])
    );
    assert_eq!(before, r);
}

#[test]
fn issue_then_cancel_restores_queue() {
    let a = ex(None, Some(200), None, None);
    let b = ex(Some(10), None, Some(-1_000), Some(5));
    let mut r = accepted_raise(vec![a]);
    let before = r.clone();
    try_issue_asset_exchanges(&mut r, &st("gp"), &st("sub_1"), vec![b, b]).unwrap();
    try_cancel_asset_exchanges(&mut r, &st("gp"), &st("sub_1"), vec![b, b]).unwrap();
    assert_eq!(before, r);
}

#[test]
fn complete_emits_bundles_in_order() {
    let e = ex(Some(10), Some(-10), Some(-1_000), None);
    let mut r = accepted_raise(vec![]);
    let before = r.clone();
    try_issue_asset_exchanges(&mut r, &st("gp"), &st("sub_1"), vec![e]).unwrap();
    let res = try_complete_asset_exchange(&mut r, &st("sub_1"), 0, vec![e]).unwrap();
    assert_eq!(before, r);
    assert_eq!(
        vec![
            HostMsg::Deposit { denom: st("commitment_coin"), amount: 10, from_address: st("sub_1") },
            HostMsg::Burn { denom: st("commitment_coin"), amount: 10 },
            HostMsg::Mint { denom: st("investment_coin"), amount: 10 },
            HostMsg::Withdraw { denom: st("investment_coin"), amount: 10, to_address: st("sub_1") },
            HostMsg::Transfer {
                denom: st("stable_coin"),
                amount: 1_000,
                from_address: st("sub_1"),
                to_address: st("gp"),
            },
        ],
        res.messages
    );
}

#[test]
fn complete_inflow_and_zero_amounts() {
    let e = ex(Some(0), Some(200), Some(i64::MIN), None);
    let mut r = accepted_raise(vec![e]);
    let res = try_complete_asset_exchange(&mut r, &st("sub_1"), 0, vec![e]).unwrap();
    assert_eq!(
        vec![
            HostMsg::Mint { denom: st("commitment_coin"), amount: 200 },
            HostMsg::Withdraw { denom: st("commitment_coin"), amount: 200, to_address: st("sub_1") },
            HostMsg::Transfer {
                denom: st("stable_coin"),
                amount: 9_223_372_036_854_775_808,
                from_address: st("sub_1"),
                to_address: st("gp"),
            },
        ],
        res.messages
    );
    assert!(r.accepted[0].exchanges.is_empty());
}

#[test]
fn complete_capital_inflow_comes_from_gp() {
    let e = ex(None, None, Some(500), None);
    let mut r = accepted_raise(vec![e]);
    let res = try_complete_asset_exchange(&mut r, &st("sub_1"), 0, vec![e]).unwrap();
    assert_eq!(
        vec![HostMsg::Transfer {
            denom: st("stable_coin"),
            amount: 500,
            from_address: st("gp"),
            to_address: st("sub_1"),
        }],
        res.messages
    );
}

#[test]
fn complete_not_yet_available() {
    let e = ex(None, Some(1), None, Some(1_675_209_600));
    let mut r = accepted_raise(vec![e]);
    let before = r.clone();
    assert_eq!(
        Err(ContractError::NotYetAvailable),
        try_complete_asset_exchange(&mut r, &st("sub_1"), 1_672_531_200, vec![e])
    );
    assert_eq!(before, r);
    assert!(try_complete_asset_exchange(&mut r, &st("sub_1"), 1_675_209_600, vec![e]).is_ok());
}

#[test]
fn complete_batch_is_all_or_nothing() {
    let a = ex(None, Some(1), None, None);
    let b = ex(None, Some(2), None, None);
    let mut r = accepted_raise(vec![a]);
    let before = r.clone();
    assert_eq!(
        Err(ContractError::ExchangeNotFound),
        try_complete_asset_exchange(&mut r, &st("sub_1"), 0, vec![a, b])
    );
    assert_eq!(before, r);
    assert_eq!(
        Err(ContractError::ExchangeNotFound),
        try_complete_asset_exchange(&mut r, &st("sub_2"), 0, vec![a])
    );
}
