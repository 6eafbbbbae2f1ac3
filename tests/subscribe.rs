use raise::msg::{AcceptSubscription, AssetExchange, ContractError, HostMsg};
use raise::state::{AcceptedSubscription, Raise, State};
use raise::sub_msg::SubInstantiateMsg;
use raise::subscribe::{
    handle_instantiate_reply, try_accept_subscriptions, try_close_subscriptions,
    try_propose_subscription,
};

fn s(v: &str) -> String {
    v.to_string()
}

fn config() -> State {
    State {
        gp: s("gp"),
        recovery_admin: s("marketpalace"),
        subscription_code_id: 100,
        capital_denom: s("stable_coin"),
        commitment_denom: s("commitment_coin"),
        investment_denom: s("investment_coin"),
        capital_per_share: 100,
        acceptable_accreditations: vec![s("506c")],
    }
}

fn raise() -> Raise {
    Raise::new(config())
}

fn accept(sub: &str, amount: u64) -> AcceptSubscription {
    AcceptSubscription { subscription: s(sub), commitment_in_capital: amount }
}

fn shares(n: i64) -> AssetExchange {
    AssetExchange { investment: None, commitment_in_shares: Some(n), capital: None, date: None }
}

fn expected_instantiate() -> SubInstantiateMsg {
    SubInstantiateMsg {
        admin: s("marketpalace"),
        lp: s("lp"),
        commitment_denom: s("commitment_coin"),
        investment_denom: s("investment_coin"),
        capital_denom: s("stable_coin"),
        capital_per_share: 100,
        initial_commitment: Some(100),
    }
}

#[test]
fn propose_pending_subscription() {
    let r = raise();
    let res = try_propose_subscription(&r, &s("cosmos2contract"), &s("lp"), &vec![], Some(100));
    assert_eq!(1, res.messages.len());
    match &res.messages[0] {
        HostMsg::Instantiate { admin, code_id, msg, label, reply_id } => {
            assert_eq!("cosmos2contract", admin);
            assert_eq!(100, *code_id);
            assert_eq!(expected_instantiate(), *msg);
            assert_eq!("establish subscription", label);
            assert_eq!(0, *reply_id);
        }
        other => panic!("unexpected message {:?}", other),
    }
    let attr = res.attributes.iter().find(|a| a.key == "eligible").unwrap();
    assert_eq!("false", attr.value);
}

#[test]
fn propose_eligible_subscription() {
    let r = raise();
    let res = try_propose_subscription(&r, &s("cosmos2contract"), &s("lp"), &vec![s("506c")], Some(100));
    assert_eq!(1, res.messages.len());
    match &res.messages[0] {
        HostMsg::Instantiate { admin, code_id, msg, label, reply_id } => {
            assert_eq!("cosmos2contract", admin);
            assert_eq!(100, *code_id);
            assert_eq!(expected_instantiate(), *msg);
            assert_eq!("establish subscription", label);
            assert_eq!(1, *reply_id);
        }
        other => panic!("unexpected message {:?}", other),
    }
    let attr = res.attributes.iter().find(|a| a.key == "eligible").unwrap();
    assert_eq!("true", attr.value);
}

#[test]
fn propose_without_gate_is_eligible() {
    let mut c = config();
    c.acceptable_accreditations = vec![];
    let r = Raise::new(c);
    let res = try_propose_subscription(&r, &s("cosmos2contract"), &s("lp"), &vec![], None);
    match &res.messages[0] {
        HostMsg::Instantiate { reply_id, .. } => assert_eq!(1, *reply_id),
        other => panic!("unexpected message {:?}", other),
    }
    assert_eq!("true", res.attributes[0].value);
}

#[test]
fn reply_registers_pending_and_eligible() {
    let mut r = raise();
    handle_instantiate_reply(&mut r, 0, s("sub_1")).unwrap();
    handle_instantiate_reply(&mut r, 1, s("sub_2")).unwrap();
    assert_eq!(vec![s("sub_1")], r.pending);
    assert_eq!(vec![s("sub_2")], r.eligible);
    let before = r.clone();
    assert_eq!(Err(ContractError::AlreadyRegistered), handle_instantiate_reply(&mut r, 1, s("sub_1")));
    assert_eq!(before, r);
}

#[test]
fn close_pending_subscriptions() {
    let mut r = raise();
    r.pending = vec![s("sub_1")];
    try_close_subscriptions(&mut r, &s("gp"), vec![s("sub_1")], &vec![0]).unwrap();
    assert_eq!(0, r.pending.len());
}

#[test]
fn close_eligible_subscriptions() {
    let mut r = raise();
    r.eligible = vec![s("sub_1")];
    try_close_subscriptions(&mut r, &s("gp"), vec![s("sub_1")], &vec![0]).unwrap();
    assert_eq!(0, r.eligible.len());
}

#[test]
fn close_subscriptions_accepted_no_commitment() {
    let mut r = raise();
    r.accepted = vec![AcceptedSubscription {
        subscription: s("sub_1"),
        exchanges: vec![AssetExchange {
            investment: Some(1_000),
            commitment_in_shares: Some(-1_000),
            capital: Some(-1_000),
            date: None,
        }],
    }];
    try_close_subscriptions(&mut r, &s("gp"), vec![s("sub_1")], &vec![0]).unwrap();
    assert_eq!(0, r.accepted.len());
    assert!(r.accepted.iter().all(|a| a.subscription != "sub_1"));
}

#[test]
fn close_subscriptions_accepted_commitment() {
    let mut r = raise();
    r.accepted = vec![AcceptedSubscription { subscription: s("sub_1"), exchanges: vec![] }];
    let before = r.clone();
    let res = try_close_subscriptions(&mut r, &s("gp"), vec![s("sub_1")], &vec![100]);
    assert_eq!(Err(ContractError::RemainingCommitment), res);
    assert_eq!(before, r);
}

#[test]
fn close_subscriptions_bad_actor() {
    let mut r = raise();
    r.accepted = vec![AcceptedSubscription { subscription: s("sub_1"), exchanges: vec![] }];
    let res = try_close_subscriptions(&mut r, &s("bad_actor"), vec![s("sub_1")], &vec![0]);
    assert_eq!(Err(ContractError::Unauthorized), res);
}

#[test]
fn close_subscriptions_not_found() {
    let mut r = raise();
    r.accepted = vec![AcceptedSubscription { subscription: s("sub_1"), exchanges: vec![] }];
    let res = try_close_subscriptions(&mut r, &s("gp"), vec![s("sub_2")], &vec![0]);
    assert_eq!(Err(ContractError::NothingToClose), res);
}

#[test]
fn close_batch_is_all_or_nothing() {
    let mut r = raise();
    r.pending = vec![s("sub_1")];
    let before = r.clone();
    let res = try_close_subscriptions(&mut r, &s("gp"), vec![s("sub_1"), s("sub_2")], &vec![0, 0]);
    assert_eq!(Err(ContractError::NothingToClose), res);
    assert_eq!(before, r);
}

#[test]
fn accept_pending_subscription() {
    let mut r = raise();
    r.pending = vec![s("sub_1")];
    try_accept_subscriptions(&mut r, &s("gp"), vec![accept("sub_1", 20_000)], &vec![vec![s("506c")]]).unwrap();
    assert_eq!(0, r.pending.len());
    assert_eq!(1, r.accepted.len());
    assert_eq!("sub_1", r.accepted[0].subscription);
    assert_eq!(vec![shares(200)], r.accepted[0].exchanges);
}

#[test]
fn accept_eligible_subscription() {
    let mut r = raise();
    r.eligible = vec![s("sub_1")];
    try_accept_subscriptions(&mut r, &s("gp"), vec![accept("sub_1", 20_000)], &vec![vec![]]).unwrap();
    assert_eq!(0, r.eligible.len());
    assert_eq!(1, r.accepted.len());
    assert_eq!(vec![shares(200)], r.accepted[0].exchanges);
}

#[test]
fn accept_subscription_bad_actor() {
    let mut r = raise();
    r.pending = vec![s("sub_1")];
    let res = try_accept_subscriptions(&mut r, &s("bad_actor"), vec![accept("sub_1", 20_000)], &vec![vec![]]);
    assert!(res.is_err());
}

#[test]
fn accept_subscription_not_pending_or_eligible() {
    let mut r = raise();
    let res = try_accept_subscriptions(&mut r, &s("bad_actor"), vec![accept("sub_1", 20_000)], &vec![vec![]]);
    assert!(res.is_err());
    let res = try_accept_subscriptions(&mut r, &s("gp"), vec![accept("sub_1", 20_000)], &vec![vec![]]);
    assert_eq!(Err(ContractError::NotPendingOrEligible), res);
}

#[test]
fn accept_subscription_missing_acceptable_accreditation() {
    let mut r = raise();
    r.pending = vec![s("sub_1")];
    let res = try_accept_subscriptions(&mut r, &s("bad_actor"), vec![accept("sub_1", 20_000)], &vec![vec![]]);
    assert!(res.is_err());
    let before = r.clone();
    let res = try_accept_subscriptions(&mut r, &s("gp"), vec![accept("sub_1", 20_000)], &vec![vec![s("accredited")]]);
    assert_eq!(Err(ContractError::MissingAccreditation), res);
    assert_eq!(before, r);
}

#[test]
fn accept_subscription_with_bad_amount() {
    let mut r = raise();
    r.pending = vec![s("sub_1")];
    let before = r.clone();
    let res = try_accept_subscriptions(&mut r, &s("gp"), vec![accept("sub_1", 20_001)], &vec![vec![s("506c")]]);
    assert_eq!(Err(ContractError::NotEvenlyDivisible), res);
    assert_eq!(before, r);
}

#[test]
fn accept_shares_too_many_for_a_signed_amount() {
    let mut c = config();
    c.capital_per_share = 1;
    let mut r = Raise::new(c);
    r.eligible = vec![s("sub_1")];
    let res = try_accept_subscriptions(&mut r, &s("gp"), vec![accept("sub_1", u64::MAX)], &vec![vec![]]);
    assert_eq!(Err(ContractError::SharesOverflow), res);
    assert_eq!(vec![s("sub_1")], r.eligible);
}

#[test]
fn accept_keeps_sets_disjoint() {
    let mut r = raise();
    r.pending = vec![s("sub_1"), s("sub_3")];
    r.eligible = vec![s("sub_2")];
    try_accept_subscriptions(
        &mut r,
        &s("gp"),
        vec![accept("sub_1", 100), accept("sub_2", 300)],
        &vec![vec![s("506c")], vec![]],
    )
    .unwrap();
    assert_eq!(vec![s("sub_3")], r.pending);
    assert!(r.eligible.is_empty());
    let accepted: Vec<&String> = r.accepted.iter().map(|a| &a.subscription).collect();
    assert_eq!(vec![&s("sub_1"), &s("sub_2")], accepted);
    assert_eq!(vec![shares(1)], r.accepted[0].exchanges);
    assert_eq!(vec![shares(3)], r.accepted[1].exchanges);
    for a in &accepted {
        assert!(!r.pending.contains(a) && !r.eligible.contains(a));
    }
}

#[test]
fn accept_twice_in_one_batch_fails() {
    let mut r = raise();
    r.eligible = vec![s("sub_1")];
    let before = r.clone();
    let res = try_accept_subscriptions(
        &mut r,
        &s("gp"),
        vec![accept("sub_1", 100), accept("sub_1", 100)],
        &vec![vec![], vec![]],
    );
    assert_eq!(Err(ContractError::NotPendingOrEligible), res);
    assert_eq!(before, r);
}
