use vstd::prelude::*;

use crate::msg::{AssetExchange, ContractError, HostMsg, Response};
use crate::state::{copy_queue, find_accepted, lemma_exchanges_at, lemma_replace_queue, Raise, State};

verus! {

/// The size of a signed amount.
pub open spec fn magnitude(v: i64) -> u128 {
    if v < 0 {
        (-(v as int)) as u128
    } else {
        v as u128
    }
}

/// Effects for a token that the raise mints and burns through its marker:
/// inflow mints and hands out, outflow takes back and burns.
pub open spec fn token_msgs(denom: String, sub: String, v: Option<i64>) -> Seq<HostMsg> {
    match v {
        Some(x) => if x > 0 {
            seq![
                HostMsg::Mint { denom: denom, amount: magnitude(x) },
                HostMsg::Withdraw { denom: denom, amount: magnitude(x), to_address: sub },
            ]
        } else if x < 0 {
            seq![
                HostMsg::Deposit { denom: denom, amount: magnitude(x), from_address: sub },
                HostMsg::Burn { denom: denom, amount: magnitude(x) },
            ]
        } else {
            Seq::empty()
        },
        None => Seq::empty(),
    }
}

/// Effects for capital, which moves between the gp and the subscription.
pub open spec fn capital_msgs(denom: String, gp: String, sub: String, v: Option<i64>) -> Seq<HostMsg> {
    match v {
        Some(x) => if x > 0 {
            seq![HostMsg::Transfer { denom: denom, amount: magnitude(x), from_address: gp, to_address: sub }]
        } else if x < 0 {
            seq![HostMsg::Transfer { denom: denom, amount: magnitude(x), from_address: sub, to_address: gp }]
        } else {
            Seq::empty()
        },
        None => Seq::empty(),
    }
}

/// The effects that settle one exchange: commitment, then investment, then capital.
pub open spec fn bundle(config: State, sub: String, e: AssetExchange) -> Seq<HostMsg> {
    token_msgs(config.commitment_denom, sub, e.commitment_in_shares)
        + token_msgs(config.investment_denom, sub, e.investment)
        + capital_msgs(config.capital_denom, config.gp, sub, e.capital)
}

/// The effects that settle a list of exchanges, one bundle after another.
pub open spec fn bundles(config: State, sub: String, es: Seq<AssetExchange>) -> Seq<HostMsg>
    decreases es.len(),
{
    if es.len() == 0 {
        Seq::empty()
    } else {
        bundles(config, sub, es.drop_last()) + bundle(config, sub, es.last())
    }
}

/// The queue without its first entry equal to `e`, if there is one.
pub open spec fn remove_first(q: Seq<AssetExchange>, e: AssetExchange) -> Option<Seq<AssetExchange>> {
    match q.index_of_first(e) {
        Some(i) => Some(q.remove(i)),
        None => None,
    }
}

/// The queue after removing each of `es` in turn, if every one is found.
pub open spec fn remove_each(q: Seq<AssetExchange>, es: Seq<AssetExchange>) -> Option<Seq<AssetExchange>>
    decreases es.len(),
{
    if es.len() == 0 {
        Some(q)
    } else {
        match remove_first(q, es[0]) {
            Some(r) => remove_each(r, es.drop_first()),
            None => None,
        }
    }
}

/// Whether an exchange may settle at time `now`.
pub open spec fn due(e: AssetExchange, now: u64) -> bool {
    match e.date {
        Some(d) => d <= now,
        None => true,
    }
}

/// Settling each of `es` in turn: each must be due and queued. The first that
/// is not decides the error.
pub open spec fn settle_each(q: Seq<AssetExchange>, es: Seq<AssetExchange>, now: u64) -> Result<Seq<AssetExchange>, ContractError>
    decreases es.len(),
{
    if es.len() == 0 {
        Ok(q)
    } else if !due(es[0], now) {
        Err(ContractError::NotYetAvailable)
    } else {
        match remove_first(q, es[0]) {
            Some(r) => settle_each(r, es.drop_first(), now),
            None => Err(ContractError::ExchangeNotFound),
        }
    }
}

fn amount(v: i64) -> (r: u128)
    ensures
        r == magnitude(v),
{
    if v < 0 {
        let w: i128 = v as i128;
        (-w) as u128
    } else {
        v as u128
    }
}

fn push_token_msgs(denom: &String, sub: &String, v: Option<i64>, out: &mut Vec<HostMsg>)
    ensures
        final(out)@ == old(out)@ + token_msgs(*denom, *sub, v),
{
    if let Some(x) = v {
        if x > 0 {
            out.push(HostMsg::Mint { denom: denom.clone(), amount: amount(x) });
            out.push(HostMsg::Withdraw { denom: denom.clone(), amount: amount(x), to_address: sub.clone() });
        } else if x < 0 {
            out.push(HostMsg::Deposit { denom: denom.clone(), amount: amount(x), from_address: sub.clone() });
            out.push(HostMsg::Burn { denom: denom.clone(), amount: amount(x) });
        }
    }
    assert(final(out)@ =~= old(out)@ + token_msgs(*denom, *sub, v));
}

fn push_capital_msgs(denom: &String, gp: &String, sub: &String, v: Option<i64>, out: &mut Vec<HostMsg>)
    ensures
        final(out)@ == old(out)@ + capital_msgs(*denom, *gp, *sub, v),
{
    if let Some(x) = v {
        if x > 0 {
            out.push(HostMsg::Transfer { denom: denom.clone(), amount: amount(x), from_address: gp.clone(), to_address: sub.clone() });
        } else if x < 0 {
            out.push(HostMsg::Transfer { denom: denom.clone(), amount: amount(x), from_address: sub.clone(), to_address: gp.clone() });
        }
    }
    assert(final(out)@ =~= old(out)@ + capital_msgs(*denom, *gp, *sub, v));
}

/// Appends the effects that settle `e` for subscription `sub`.
pub fn push_bundle(config: &State, sub: &String, e: &AssetExchange, out: &mut Vec<HostMsg>)
    ensures
        final(out)@ == old(out)@ + bundle(*config, *sub, *e),
{
    push_token_msgs(&config.commitment_denom, sub, e.commitment_in_shares, out);
    push_token_msgs(&config.investment_denom, sub, e.investment, out);
    push_capital_msgs(&config.capital_denom, &config.gp, sub, e.capital, out);
    assert(final(out)@ =~= old(out)@ + bundle(*config, *sub, *e));
}

/// Takes the first entry equal to `e` out of the queue.
pub fn take_first(q: &mut Vec<AssetExchange>, e: &AssetExchange) -> (found: bool)
    ensures
        match remove_first(old(q)@, *e) {
            Some(r) => found && final(q)@ == r,
            None => !found && final(q)@ == old(q)@,
        },
{
    let mut i: usize = 0;
    while i < q.len()
        invariant
            i <= q@.len(),
            q@ == old(q)@,
            forall|j: int| 0 <= j < i ==> q@[j] != *e,
        decreases q@.len() - i,
    {
        if q[i] == *e {
            proof {
                q@.index_of_first_ensures(*e);
                assert(q@.contains(*e));
                let f = q@.index_of_first(*e)->Some_0;
                assert(f == i as int);
                assert(q@.index_of_first(*e) == Some(i as int));
            }
            q.remove(i);
            return true;
        }
        i += 1;
    }
    proof {
        q@.index_of_first_ensures(*e);
        assert(!q@.contains(*e));
    }
    false
}

/// Nothing settles against an empty queue.
proof fn lemma_settle_empty(es: Seq<AssetExchange>, now: u64)
    requires
        settle_each(Seq::empty(), es, now) is Ok,
    ensures
        es.len() == 0,
{
    if es.len() > 0 && due(es[0], now) {
        Seq::<AssetExchange>::empty().index_of_first_ensures(es[0]);
        assert(!Seq::<AssetExchange>::empty().contains(es[0]));
    }
}

/// Appends exchanges to an accepted subscription's queue. Only the gp may.
pub fn try_issue_asset_exchanges(
    raise: &mut Raise,
    sender: &String,
    subscription: &String,
    exchanges: Vec<AssetExchange>,
) -> (r: Result<Response, ContractError>)
    requires
        old(raise).wf(),
    ensures
        final(raise).wf(),
        sender@ != old(raise).config.gp@ ==> r == Err::<Response, ContractError>(ContractError::Unauthorized),
        sender@ == old(raise).config.gp@ && !old(raise).accepted_set().contains(subscription@)
            ==> r == Err::<Response, ContractError>(ContractError::NotAccepted),
        r is Err ==> *final(raise) == *old(raise),
        sender@ == old(raise).config.gp@ && old(raise).accepted_set().contains(subscription@) ==> r is Ok,
        r is Ok ==> {
            &&& sender@ == old(raise).config.gp@
            &&& old(raise).accepted_set().contains(subscription@)
            &&& final(raise).same_but_queue(old(raise), subscription@)
            &&& final(raise).exchanges_of(subscription@) == old(raise).exchanges_of(subscription@) + exchanges@
            &&& r->Ok_0.messages@.len() == 0
            &&& r->Ok_0.attributes@.len() == 0
        },
{
    if *sender != raise.config.gp {
        return Err(ContractError::Unauthorized);
    }
    let k = match find_accepted(&raise.accepted, subscription) {
        Some(k) => k,
        None => return Err(ContractError::NotAccepted),
    };
    let ghost before = *raise;
    proof {
        lemma_replace_queue(&before, &before, k as int);
        lemma_exchanges_at(&before, k as int);
    }
    let mut queue = copy_queue(&raise.accepted[k].exchanges);
    let mut added = exchanges;
    queue.append(&mut added);
    raise.accepted[k].exchanges = queue;
    proof {
        lemma_replace_queue(&before, raise, k as int);
    }
    Ok(Response::new())
}

/// Removes, for each of `exchanges` in turn, the first equal entry of the
/// subscription's queue. Only the gp may; every entry must be found.
pub fn try_cancel_asset_exchanges(
    raise: &mut Raise,
    sender: &String,
    subscription: &String,
    exchanges: Vec<AssetExchange>,
) -> (r: Result<Response, ContractError>)
    requires
        old(raise).wf(),
    ensures
        final(raise).wf(),
        sender@ != old(raise).config.gp@ ==> r == Err::<Response, ContractError>(ContractError::Unauthorized),
        sender@ == old(raise).config.gp@ && remove_each(old(raise).exchanges_of(subscription@), exchanges@) is None
            ==> r == Err::<Response, ContractError>(ContractError::ExchangeNotFound),
        sender@ == old(raise).config.gp@ && remove_each(old(raise).exchanges_of(subscription@), exchanges@) is Some
            ==> r is Ok,
        r is Err ==> *final(raise) == *old(raise),
        r is Ok ==> {
            &&& sender@ == old(raise).config.gp@
            &&& remove_each(old(raise).exchanges_of(subscription@), exchanges@) == Some(final(raise).exchanges_of(subscription@))
            &&& final(raise).same_but_queue(old(raise), subscription@)
            &&& r->Ok_0.messages@.len() == 0
            &&& r->Ok_0.attributes@.len() == 0
        },
{
    if *sender != raise.config.gp {
        return Err(ContractError::Unauthorized);
    }
    let k = match find_accepted(&raise.accepted, subscription) {
        Some(k) => k,
        None => {
            if exchanges.len() == 0 {
                return Ok(Response::new());
            }
            proof {
                Seq::<AssetExchange>::empty().index_of_first_ensures(exchanges@[0]);
                assert(!Seq::<AssetExchange>::empty().contains(exchanges@[0]));
            }
            return Err(ContractError::ExchangeNotFound);
        },
    };
    let ghost before = *raise;
    proof {
        lemma_replace_queue(&before, &before, k as int);
    }
    let mut queue = copy_queue(&raise.accepted[k].exchanges);
    assert(exchanges@.subrange(0, exchanges@.len() as int) =~= exchanges@);
    let mut i: usize = 0;
    while i < exchanges.len()
        invariant
            *raise == before,
            before == *old(raise),
            before.wf(),
            sender@ == before.config.gp@,
            i <= exchanges@.len(),
            remove_each(before.exchanges_of(subscription@), exchanges@)
                == remove_each(queue@, exchanges@.subrange(i as int, exchanges@.len() as int)),
        decreases exchanges@.len() - i,
    {
        let ghost rest = exchanges@.subrange(i as int, exchanges@.len() as int);
        assert(rest[0] == exchanges@[i as int]);
        assert(rest.drop_first() =~= exchanges@.subrange(i + 1, exchanges@.len() as int));
        if !take_first(&mut queue, &exchanges[i]) {
            return Err(ContractError::ExchangeNotFound);
        }
        i += 1;
    }
    assert(exchanges@.subrange(i as int, exchanges@.len() as int) =~= Seq::<AssetExchange>::empty());
    raise.accepted[k].exchanges = queue;
    proof {
        lemma_replace_queue(&before, raise, k as int);
    }
    Ok(Response::new())
}

/// Settles exchanges of the sender's own queue: each must be due at `now` and
/// queued. Their effects come back in the order given.
pub fn try_complete_asset_exchange(
    raise: &mut Raise,
    sender: &String,
    now: u64,
    exchanges: Vec<AssetExchange>,
) -> (r: Result<Response, ContractError>)
    requires
        old(raise).wf(),
    ensures
        final(raise).wf(),
        match settle_each(old(raise).exchanges_of(sender@), exchanges@, now) {
            Err(e) => r == Err::<Response, ContractError>(e) && *final(raise) == *old(raise),
            Ok(q) => {
                &&& r is Ok
                &&& final(raise).exchanges_of(sender@) == q
                &&& final(raise).same_but_queue(old(raise), sender@)
                &&& r->Ok_0.messages@ == bundles(old(raise).config, *sender, exchanges@)
                &&& r->Ok_0.attributes@.len() == 0
            },
        },
{
    let ghost before = *raise;
    let found = find_accepted(&raise.accepted, sender);
    let mut queue: Vec<AssetExchange> = match found {
        Some(k) => {
            proof {
                lemma_replace_queue(&before, &before, k as int);
            }
            copy_queue(&raise.accepted[k].exchanges)
        },
        None => Vec::new(),
    };
    assert(queue@ == before.exchanges_of(sender@));
    let mut msgs: Vec<HostMsg> = Vec::new();
    assert(exchanges@.subrange(0, exchanges@.len() as int) =~= exchanges@);
    assert(exchanges@.subrange(0, 0) =~= Seq::<AssetExchange>::empty());
    let mut i: usize = 0;
    while i < exchanges.len()
        invariant
            *raise == before,
            before == *old(raise),
            before.wf(),
            i <= exchanges@.len(),
            settle_each(before.exchanges_of(sender@), exchanges@, now)
                == settle_each(queue@, exchanges@.subrange(i as int, exchanges@.len() as int), now),
            msgs@ == bundles(before.config, *sender, exchanges@.subrange(0, i as int)),
        decreases exchanges@.len() - i,
    {
        let ghost rest = exchanges@.subrange(i as int, exchanges@.len() as int);
        assert(rest[0] == exchanges@[i as int]);
        assert(rest.drop_first() =~= exchanges@.subrange(i + 1, exchanges@.len() as int));
        let e = exchanges[i];
        if let Some(d) = e.date {
            if d > now {
                return Err(ContractError::NotYetAvailable);
            }
        }
        if !take_first(&mut queue, &e) {
            return Err(ContractError::ExchangeNotFound);
        }
        push_bundle(&raise.config, sender, &e, &mut msgs);
        assert(exchanges@.subrange(0, i + 1).drop_last() =~= exchanges@.subrange(0, i as int));
        i += 1;
    }
    assert(exchanges@.subrange(i as int, exchanges@.len() as int) =~= Seq::<AssetExchange>::empty());
    assert(exchanges@.subrange(0, i as int) =~= exchanges@);
    match found {
        Some(k) => {
            raise.accepted[k].exchanges = queue;
            proof {
                lemma_replace_queue(&before, raise, k as int);
            }
        },
        None => {
            proof {
                lemma_settle_empty(exchanges@, now);
            }
            assert(queue@ =~= Seq::<AssetExchange>::empty());
            assert forall|x: Seq<char>| x != sender@ implies #[trigger] raise.exchanges_of(x) == before.exchanges_of(x) by {}
        },
    }
    Ok(Response { messages: msgs, attributes: Vec::new() })
}

/// Removing the first appended entry that the queue itself lacks removes
/// exactly that entry.
proof fn lemma_remove_appended(q: Seq<AssetExchange>, es: Seq<AssetExchange>)
    requires
        es.len() > 0,
        !q.contains(es[0]),
    ensures
        remove_first(q + es, es[0]) == Some(q + es.drop_first()),
{
    let s = q + es;
    let n = q.len() as int;
    assert(s[n] == es[0]);
    s.index_of_first_ensures(es[0]);
    let f = s.index_of_first(es[0])->Some_0;
    if f < n {
        assert(q[f] == s[f]);
    }
    assert(f == n);
    assert(s.remove(n) =~= q + es.drop_first());
}

/// Cancelling the exchanges just issued gives back the queue as it was,
/// provided none of them was queued already (else an earlier equal entry goes).
pub proof fn lemma_issue_then_cancel(q: Seq<AssetExchange>, es: Seq<AssetExchange>)
    requires
        forall|i: int| 0 <= i < es.len() ==> !q.contains(#[trigger] es[i]),
    ensures
        remove_each(q + es, es) == Some(q),
    decreases es.len(),
{
    if es.len() == 0 {
        assert(q + es =~= q);
    } else {
        lemma_remove_appended(q, es);
        assert forall|i: int| 0 <= i < es.drop_first().len() implies !q.contains(#[trigger] es.drop_first()[i]) by {
            assert(es.drop_first()[i] == es[i + 1]);
        }
        lemma_issue_then_cancel(q, es.drop_first());
    }
}

/// Completing the exchanges just issued, once all are due, gives back the
/// queue as it was, provided none of them was queued already. The effects
/// emitted are then `bundles` of those exchanges, by the contract of
/// `try_complete_asset_exchange`.
pub proof fn lemma_issue_then_complete(q: Seq<AssetExchange>, es: Seq<AssetExchange>, now: u64)
    requires
        forall|i: int| 0 <= i < es.len() ==> !q.contains(#[trigger] es[i]),
        forall|i: int| 0 <= i < es.len() ==> due(#[trigger] es[i], now),
    ensures
        settle_each(q + es, es, now) == Ok::<Seq<AssetExchange>, ContractError>(q),
    decreases es.len(),
{
    if es.len() == 0 {
        assert(q + es =~= q);
    } else {
        assert(due(es[0], now));
        lemma_remove_appended(q, es);
        assert forall|i: int| 0 <= i < es.drop_first().len() implies !q.contains(#[trigger] es.drop_first()[i]) by {
            assert(es.drop_first()[i] == es[i + 1]);
        }
        assert forall|i: int| 0 <= i < es.drop_first().len() implies due(#[trigger] es.drop_first()[i], now) by {
            assert(es.drop_first()[i] == es[i + 1]);
        }
        lemma_issue_then_complete(q, es.drop_first(), now);
    }
}

} // verus!
