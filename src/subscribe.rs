use vstd::prelude::*;

use crate::msg::{AcceptSubscription, AssetExchange, Attribute, ContractError, HostMsg, Response};
use crate::sub_msg::SubInstantiateMsg;
use crate::state::{
    accredited, addrs, copy_accepted, copy_addrs, find_accepted, find_addr, keys,
    lemma_push_addr, lemma_queues_dom, lemma_queues_push, lemma_queues_remove, lemma_same_entries,
    lists_wf, overlap, queues, remove_addr, AcceptedSubscription, Raise, Registry, State,
};

verus! {

/// Whether two lists of names have one in common.
pub fn has_overlap(a: &Vec<String>, b: &Vec<String>) -> (r: bool)
    ensures
        r == overlap(a@, b@),
{
    let mut i: usize = 0;
    while i < a.len()
        invariant
            i <= a@.len(),
            forall|x: int, y: int| 0 <= x < i && 0 <= y < b@.len() ==> a@[x]@ != b@[y]@,
        decreases a@.len() - i,
    {
        let mut j: usize = 0;
        while j < b.len()
            invariant
                i < a@.len(),
                j <= b@.len(),
                forall|x: int, y: int| 0 <= x < i && 0 <= y < b@.len() ==> a@[x]@ != b@[y]@,
                forall|y: int| 0 <= y < j ==> a@[i as int]@ != b@[y]@,
            decreases b@.len() - j,
        {
            if a[i] == b[j] {
                return true;
            }
            j += 1;
        }
        i += 1;
    }
    false
}

/// Whether an address with these attributes passes the accreditation gate.
pub fn is_accredited(acceptable: &Vec<String>, attributes: &Vec<String>) -> (r: bool)
    ensures
        r == accredited(acceptable@, attributes@),
{
    acceptable.len() == 0 || has_overlap(attributes, acceptable)
}

/// The payload of the subscription contract that `lp` proposes.
pub open spec fn instantiate_msg(config: State, lp: String, initial_commitment: Option<u64>) -> SubInstantiateMsg {
    SubInstantiateMsg {
        admin: config.recovery_admin,
        lp: lp,
        commitment_denom: config.commitment_denom,
        investment_denom: config.investment_denom,
        capital_denom: config.capital_denom,
        capital_per_share: config.capital_per_share,
        initial_commitment: initial_commitment,
    }
}

/// The sender proposes a subscription. The host is asked to instantiate a
/// subscription contract, administered by this contract at `contract_address`;
/// its reply carries 1 when the sender passes the accreditation gate, else 0.
/// `sender_attributes` are the attribute names bound to the sender.
pub fn try_propose_subscription(
    raise: &Raise,
    contract_address: &String,
    sender: &String,
    sender_attributes: &Vec<String>,
    initial_commitment: Option<u64>,
) -> (r: Response)
    ensures
        r.messages@.len() == 1,
        r.messages@[0] matches HostMsg::Instantiate { admin, code_id, msg, label, reply_id }
            && admin == *contract_address
            && code_id == raise.config.subscription_code_id
            && msg == instantiate_msg(raise.config, *sender, initial_commitment)
            && label@ == "establish subscription"@
            && reply_id == (if accredited(raise.config.acceptable_accreditations@, sender_attributes@) { 1u64 } else { 0u64 }),
        r.attributes@.len() == 1,
        r.attributes@[0].key@ == "eligible"@,
        r.attributes@[0].value@ == (if accredited(raise.config.acceptable_accreditations@, sender_attributes@) {
            "true"@
        } else {
            "false"@
        }),
{
    let config = &raise.config;
    let eligible = is_accredited(&config.acceptable_accreditations, sender_attributes);
    let msg = SubInstantiateMsg {
        admin: config.recovery_admin.clone(),
        lp: sender.clone(),
        commitment_denom: config.commitment_denom.clone(),
        investment_denom: config.investment_denom.clone(),
        capital_denom: config.capital_denom.clone(),
        capital_per_share: config.capital_per_share,
        initial_commitment,
    };
    let create = HostMsg::Instantiate {
        admin: contract_address.clone(),
        code_id: config.subscription_code_id,
        msg,
        label: "establish subscription".to_owned(),
        reply_id: if eligible { 1 } else { 0 },
    };
    let value = if eligible { "true".to_owned() } else { "false".to_owned() };
    proof {
        reveal_strlit("establish subscription");
        reveal_strlit("eligible");
        reveal_strlit("true");
        reveal_strlit("false");
    }
    let mut messages: Vec<HostMsg> = Vec::new();
    messages.push(create);
    let mut attributes: Vec<Attribute> = Vec::new();
    attributes.push(Attribute { key: "eligible".to_owned(), value });
    Response { messages, attributes }
}

/// Registers a freshly instantiated subscription: as eligible for reply id 1,
/// else as pending. An address already registered is refused.
pub fn handle_instantiate_reply(raise: &mut Raise, id: u64, subscription: String) -> (r: Result<Response, ContractError>)
    requires
        old(raise).wf(),
    ensures
        final(raise).wf(),
        final(raise).config == old(raise).config,
        final(raise).redemptions == old(raise).redemptions,
        ({
            let m = old(raise).model();
            if m.0.contains(subscription@) || m.1.contains(subscription@) || m.2.dom().contains(subscription@) {
                r == Err::<Response, ContractError>(ContractError::AlreadyRegistered) && *final(raise) == *old(raise)
            } else if id == 1 {
                r is Ok && final(raise).model() == (m.0, m.1.insert(subscription@), m.2)
            } else {
                r is Ok && final(raise).model() == (m.0.insert(subscription@), m.1, m.2)
            }
        }),
{
    proof {
        lemma_queues_dom(raise.accepted@);
    }
    if find_addr(&raise.pending, &subscription).is_some() || find_addr(&raise.eligible, &subscription).is_some()
        || find_accepted(&raise.accepted, &subscription).is_some() {
        return Err(ContractError::AlreadyRegistered);
    }
    if id == 1 {
        proof {
            lemma_push_addr(raise.eligible@, subscription);
        }
        raise.eligible.push(subscription);
    } else {
        proof {
            lemma_push_addr(raise.pending@, subscription);
        }
        raise.pending.push(subscription);
    }
    Ok(Response::new())
}

/// Closing one subscription: a pending or eligible one leaves its set; an
/// accepted one leaves with its queue, once it holds no commitment.
pub open spec fn close_one(m: Registry, s: Seq<char>, commitment: u128) -> Result<Registry, ContractError> {
    if m.0.contains(s) {
        Ok((m.0.remove(s), m.1, m.2))
    } else if m.1.contains(s) {
        Ok((m.0, m.1.remove(s), m.2))
    } else if m.2.dom().contains(s) {
        if commitment == 0 {
            Ok((m.0, m.1, m.2.remove(s)))
        } else {
            Err(ContractError::RemainingCommitment)
        }
    } else {
        Err(ContractError::NothingToClose)
    }
}

/// Closing each subscription in turn, with its commitment balance; the first
/// failure decides.
pub open spec fn close_each(m: Registry, subs: Seq<String>, commitments: Seq<u128>) -> Result<Registry, ContractError>
    decreases subs.len(),
{
    if subs.len() == 0 {
        Ok(m)
    } else {
        match close_one(m, subs[0]@, commitments[0]) {
            Ok(n) => close_each(n, subs.drop_first(), commitments.drop_first()),
            Err(e) => Err(e),
        }
    }
}

/// The gp closes subscriptions, all or none. `commitment_balances[i]` is the
/// balance of the commitment denom that the host reports for `subscriptions[i]`.
pub fn try_close_subscriptions(
    raise: &mut Raise,
    sender: &String,
    subscriptions: Vec<String>,
    commitment_balances: &Vec<u128>,
) -> (r: Result<Response, ContractError>)
    requires
        old(raise).wf(),
        commitment_balances@.len() == subscriptions@.len(),
    ensures
        final(raise).wf(),
        final(raise).config == old(raise).config,
        final(raise).redemptions == old(raise).redemptions,
        sender@ != old(raise).config.gp@ ==> r == Err::<Response, ContractError>(ContractError::Unauthorized)
            && *final(raise) == *old(raise),
        sender@ == old(raise).config.gp@ ==> match close_each(old(raise).model(), subscriptions@, commitment_balances@) {
            Err(e) => r == Err::<Response, ContractError>(e) && *final(raise) == *old(raise),
            Ok(m) => r is Ok && final(raise).model() == m && r->Ok_0.messages@.len() == 0
                && r->Ok_0.attributes@.len() == 0,
        },
{
    if *sender != raise.config.gp {
        return Err(ContractError::Unauthorized);
    }
    let ghost before = *raise;
    let mut p = copy_addrs(&raise.pending);
    let mut e = copy_addrs(&raise.eligible);
    let mut a = copy_accepted(&raise.accepted);
    proof {
        lemma_same_entries(a@, before.accepted@);
    }
    let n = subscriptions.len();
    assert(subscriptions@.subrange(0, n as int) =~= subscriptions@);
    assert(commitment_balances@.subrange(0, n as int) =~= commitment_balances@);
    let mut i: usize = 0;
    while i < n
        invariant
            *raise == before,
            before == *old(raise),
            before.wf(),
            sender@ == before.config.gp@,
            n == subscriptions@.len(),
            n == commitment_balances@.len(),
            i <= n,
            lists_wf(p@, e@, a@),
            close_each(before.model(), subscriptions@, commitment_balances@) == close_each(
                (addrs(p@), addrs(e@), queues(a@)),
                subscriptions@.subrange(i as int, n as int),
                commitment_balances@.subrange(i as int, n as int),
            ),
        decreases n - i,
    {
        let ghost subs_rest = subscriptions@.subrange(i as int, n as int);
        let ghost bals_rest = commitment_balances@.subrange(i as int, n as int);
        assert(subs_rest.drop_first() =~= subscriptions@.subrange(i + 1, n as int));
        assert(bals_rest.drop_first() =~= commitment_balances@.subrange(i + 1, n as int));
        assert(subs_rest[0] == subscriptions@[i as int]);
        assert(bals_rest[0] == commitment_balances@[i as int]);
        proof {
            lemma_queues_dom(a@);
        }
        let ghost m = (addrs(p@), addrs(e@), queues(a@));
        let s = &subscriptions[i];
        if remove_addr(&mut p, s) {
        } else if remove_addr(&mut e, s) {
        } else {
            match find_accepted(&a, s) {
                Some(k) => {
                    if commitment_balances[i] != 0 {
                        return Err(ContractError::RemainingCommitment);
                    }
                    proof {
                        lemma_queues_remove(a@, k as int);
                    }
                    a.remove(k);
                },
                None => return Err(ContractError::NothingToClose),
            }
        }
        assert(close_one(m, subscriptions@[i as int]@, commitment_balances@[i as int])
            == Ok::<Registry, ContractError>((addrs(p@), addrs(e@), queues(a@))));
        i += 1;
    }
    assert(subscriptions@.subrange(n as int, n as int) =~= Seq::<String>::empty());
    raise.pending = p;
    raise.eligible = e;
    raise.accepted = a;
    Ok(Response::new())
}

/// The exchange that accepting a subscription queues: `shares` commitment
/// shares flowing to it, nothing else.
pub open spec fn share_entry(shares: i64) -> AssetExchange {
    AssetExchange { investment: None, commitment_in_shares: Some(shares), capital: None, date: None }
}

/// Moves `s` into the accepted map, appending its share entry to its queue.
pub open spec fn enter_accepted(m: Registry, s: Seq<char>, shares: int) -> Result<Registry, ContractError> {
    if shares > i64::MAX {
        Err(ContractError::SharesOverflow)
    } else {
        let q = if m.2.dom().contains(s) { m.2[s] } else { Seq::empty() };
        Ok((m.0, m.1, m.2.insert(s, q.push(share_entry(shares as i64)))))
    }
}

/// Accepting one subscription for `capital`: a whole number of shares, and
/// either eligible, or pending with an lp (holding `lp_attributes`) that
/// passes the accreditation gate.
pub open spec fn accept_one(m: Registry, config: State, s: Seq<char>, capital: u64, lp_attributes: Seq<String>) -> Result<Registry, ContractError> {
    if capital % config.capital_per_share != 0 {
        Err(ContractError::NotEvenlyDivisible)
    } else if m.1.contains(s) {
        enter_accepted((m.0, m.1.remove(s), m.2), s, (capital / config.capital_per_share) as int)
    } else if m.0.contains(s) {
        if !accredited(config.acceptable_accreditations@, lp_attributes) {
            Err(ContractError::MissingAccreditation)
        } else {
            enter_accepted((m.0.remove(s), m.1, m.2), s, (capital / config.capital_per_share) as int)
        }
    } else {
        Err(ContractError::NotPendingOrEligible)
    }
}

/// Accepting each subscription in turn; the first failure decides.
pub open spec fn accept_each(m: Registry, config: State, accepts: Seq<AcceptSubscription>, lp_attributes: Seq<Vec<String>>) -> Result<Registry, ContractError>
    decreases accepts.len(),
{
    if accepts.len() == 0 {
        Ok(m)
    } else {
        match accept_one(m, config, accepts[0].subscription@, accepts[0].commitment_in_capital, lp_attributes[0]@) {
            Ok(n) => accept_each(n, config, accepts.drop_first(), lp_attributes.drop_first()),
            Err(e) => Err(e),
        }
    }
}

/// Whether accepting `subscription` reads its lp's attributes: only for a
/// pending (not eligible) subscription while accreditations are required.
pub fn needs_accreditation_check(raise: &Raise, subscription: &String) -> (r: bool)
    ensures
        r == (!raise.eligible_set().contains(subscription@) && raise.pending_set().contains(subscription@)
            && raise.config.acceptable_accreditations@.len() > 0),
{
    raise.config.acceptable_accreditations.len() > 0 && find_addr(&raise.eligible, subscription).is_none()
        && find_addr(&raise.pending, subscription).is_some()
}

/// The gp accepts subscriptions, all or none. `lp_attributes[i]` are the
/// attribute names of the lp behind `accepts[i].subscription`; they are read
/// only for a pending subscription while accreditations are required.
pub fn try_accept_subscriptions(
    raise: &mut Raise,
    sender: &String,
    accepts: Vec<AcceptSubscription>,
    lp_attributes: &Vec<Vec<String>>,
) -> (r: Result<Response, ContractError>)
    requires
        old(raise).wf(),
        lp_attributes@.len() == accepts@.len(),
    ensures
        final(raise).wf(),
        final(raise).config == old(raise).config,
        final(raise).redemptions == old(raise).redemptions,
        sender@ != old(raise).config.gp@ ==> r == Err::<Response, ContractError>(ContractError::Unauthorized)
            && *final(raise) == *old(raise),
        sender@ == old(raise).config.gp@ ==> match accept_each(old(raise).model(), old(raise).config, accepts@, lp_attributes@) {
            Err(e) => r == Err::<Response, ContractError>(e) && *final(raise) == *old(raise),
            Ok(m) => r is Ok && final(raise).model() == m && r->Ok_0.messages@.len() == 0
                && r->Ok_0.attributes@.len() == 0,
        },
{
    if *sender != raise.config.gp {
        return Err(ContractError::Unauthorized);
    }
    let ghost before = *raise;
    let mut p = copy_addrs(&raise.pending);
    let mut e = copy_addrs(&raise.eligible);
    let mut a = copy_accepted(&raise.accepted);
    proof {
        lemma_same_entries(a@, before.accepted@);
    }
    let cps = raise.config.capital_per_share;
    let n = accepts.len();
    assert(accepts@.subrange(0, n as int) =~= accepts@);
    assert(lp_attributes@.subrange(0, n as int) =~= lp_attributes@);
    let mut i: usize = 0;
    while i < n
        invariant
            *raise == before,
            before == *old(raise),
            before.wf(),
            cps == before.config.capital_per_share,
            sender@ == before.config.gp@,
            n == accepts@.len(),
            n == lp_attributes@.len(),
            i <= n,
            lists_wf(p@, e@, a@),
            accept_each(before.model(), before.config, accepts@, lp_attributes@) == accept_each(
                (addrs(p@), addrs(e@), queues(a@)),
                before.config,
                accepts@.subrange(i as int, n as int),
                lp_attributes@.subrange(i as int, n as int),
            ),
        decreases n - i,
    {
        let ghost acc_rest = accepts@.subrange(i as int, n as int);
        let ghost attr_rest = lp_attributes@.subrange(i as int, n as int);
        assert(acc_rest.drop_first() =~= accepts@.subrange(i + 1, n as int));
        assert(attr_rest.drop_first() =~= lp_attributes@.subrange(i + 1, n as int));
        assert(acc_rest[0] == accepts@[i as int]);
        assert(attr_rest[0] == lp_attributes@[i as int]);
        proof {
            lemma_queues_dom(a@);
        }
        let ghost m = (addrs(p@), addrs(e@), queues(a@));
        let s = &accepts[i].subscription;
        let capital = accepts[i].commitment_in_capital;
        if capital % cps != 0 {
            return Err(ContractError::NotEvenlyDivisible);
        }
        if remove_addr(&mut e, s) {
        } else if find_addr(&p, s).is_some() {
            if !is_accredited(&raise.config.acceptable_accreditations, &lp_attributes[i]) {
                return Err(ContractError::MissingAccreditation);
            }
            remove_addr(&mut p, s);
        } else {
            return Err(ContractError::NotPendingOrEligible);
        }
        let shares = capital / cps;
        if shares > i64::MAX as u64 {
            return Err(ContractError::SharesOverflow);
        }
        let mut queue: Vec<AssetExchange> = Vec::new();
        queue.push(AssetExchange { investment: None, commitment_in_shares: Some(shares as i64), capital: None, date: None });
        let entry = AcceptedSubscription { subscription: s.clone(), exchanges: queue };
        assert(!addrs(keys(a@)).contains(s@));
        assert(entry.exchanges@ =~= Seq::<AssetExchange>::empty().push(share_entry(shares as i64)));
        proof {
            lemma_queues_push(a@, entry);
        }
        a.push(entry);
        assert(accept_one(m, before.config, s@, capital, lp_attributes@[i as int]@)
            == Ok::<Registry, ContractError>((addrs(p@), addrs(e@), queues(a@))));
        i += 1;
    }
    assert(accepts@.subrange(n as int, n as int) =~= Seq::<AcceptSubscription>::empty());
    raise.pending = p;
    raise.eligible = e;
    raise.accepted = a;
    Ok(Response::new())
}


/// Accepting a subscription gives it exactly one new queue entry, holding the
/// capital's number of shares with every other field unset; every other queue
/// stays as it was.
pub proof fn lemma_accept_appends_share_entry(m: Registry, config: State, s: Seq<char>, capital: u64, lp_attributes: Seq<String>)
    requires
        config.wf(),
        accept_one(m, config, s, capital, lp_attributes) is Ok,
    ensures
        ({
            let n = accept_one(m, config, s, capital, lp_attributes)->Ok_0;
            let q = if m.2.dom().contains(s) { m.2[s] } else { Seq::empty() };
            &&& n.2.dom().contains(s)
            &&& n.2[s] == q.push(share_entry((capital / config.capital_per_share) as i64))
            &&& ((capital / config.capital_per_share) as i64) as int == capital as int / config.capital_per_share as int
            &&& forall|x: Seq<char>| x != s ==> (#[trigger] n.2.dom().contains(x) <==> m.2.dom().contains(x))
            &&& forall|x: Seq<char>| x != s && m.2.dom().contains(x) ==> #[trigger] n.2[x] == m.2[x]
        }),
{
}

} // verus!
