use vstd::prelude::*;

use crate::msg::{Attribute, Coin, ContractError, HostMsg, Redemption, Response};
use crate::state::Raise;

verus! {

/// `i` is the first index of a record addressed by (subscription, asset, capital).
pub open spec fn is_first_match(v: Seq<Redemption>, i: int, sub: Seq<char>, asset: u64, capital: u64) -> bool {
    &&& 0 <= i < v.len()
    &&& v[i].spec_matches(sub, asset, capital)
    &&& forall|j: int| 0 <= j < i ==> !(#[trigger] v[j]).spec_matches(sub, asset, capital)
}

pub open spec fn has_match(v: Seq<Redemption>, sub: Seq<char>, asset: u64, capital: u64) -> bool {
    exists|i: int| is_first_match(v, i, sub, asset, capital)
}

pub open spec fn first_match(v: Seq<Redemption>, sub: Seq<char>, asset: u64, capital: u64) -> int {
    choose|i: int| is_first_match(v, i, sub, asset, capital)
}

/// The list without its first record addressed by the triple, if there is one.
pub open spec fn remove_match(v: Seq<Redemption>, sub: Seq<char>, asset: u64, capital: u64) -> Option<Seq<Redemption>> {
    if has_match(v, sub, asset, capital) {
        Some(v.remove(first_match(v, sub, asset, capital)))
    } else {
        None
    }
}

/// The list after removing, for each of `rs` in turn, the first record with
/// its (subscription, asset, capital), if every one is found.
pub open spec fn remove_matches(v: Seq<Redemption>, rs: Seq<Redemption>) -> Option<Seq<Redemption>>
    decreases rs.len(),
{
    if rs.len() == 0 {
        Some(v)
    } else {
        match remove_match(v, rs[0].subscription@, rs[0].asset, rs[0].capital) {
            Some(w) => remove_matches(w, rs.drop_first()),
            None => None,
        }
    }
}

impl Raise {
    /// `self` and `other` agree on everything but the outstanding redemptions.
    pub open spec fn same_but_redemptions(&self, other: &Raise) -> bool {
        &&& self.config == other.config
        &&& self.pending == other.pending
        &&& self.eligible == other.eligible
        &&& self.accepted == other.accepted
    }
}

/// The first index of a record addressed by the triple.
pub fn find_match(v: &Vec<Redemption>, sub: &String, asset: u64, capital: u64) -> (r: Option<usize>)
    ensures
        match r {
            Some(i) => is_first_match(v@, i as int, sub@, asset, capital)
                && first_match(v@, sub@, asset, capital) == i as int,
            None => !has_match(v@, sub@, asset, capital),
        },
{
    let mut i: usize = 0;
    while i < v.len()
        invariant
            i <= v@.len(),
            forall|j: int| 0 <= j < i ==> !(#[trigger] v@[j]).spec_matches(sub@, asset, capital),
        decreases v@.len() - i,
    {
        if v[i].matches(sub, asset, capital) {
            proof {
                assert(is_first_match(v@, i as int, sub@, asset, capital));
                let f = first_match(v@, sub@, asset, capital);
                if f < i {
                    assert(!v@[f].spec_matches(sub@, asset, capital));
                }
                if f > i {
                    assert(!v@[i as int].spec_matches(sub@, asset, capital));
                }
            }
            return Some(i);
        }
        i += 1;
    }
    None
}

fn copy_redemptions(v: &Vec<Redemption>) -> (r: Vec<Redemption>)
    ensures
        r@ == v@,
{
    let mut r: Vec<Redemption> = Vec::new();
    let mut i: usize = 0;
    while i < v.len()
        invariant
            i <= v@.len(),
            r@ == v@.subrange(0, i as int),
        decreases v@.len() - i,
    {
        r.push(v[i].duplicate());
        i += 1;
    }
    assert(r@ =~= v@);
    r
}

/// Adds redemptions after the outstanding ones. Only the gp may.
pub fn try_issue_redemptions(raise: &mut Raise, sender: &String, redemptions: Vec<Redemption>) -> (r: Result<Response, ContractError>)
    requires
        old(raise).wf(),
    ensures
        final(raise).wf(),
        sender@ != old(raise).config.gp@ ==> r == Err::<Response, ContractError>(ContractError::Unauthorized)
            && *final(raise) == *old(raise),
        sender@ == old(raise).config.gp@ ==> {
            &&& r is Ok
            &&& final(raise).same_but_redemptions(old(raise))
            &&& final(raise).redemptions is Some
            &&& final(raise).outstanding() == old(raise).outstanding() + redemptions@
            &&& r->Ok_0.messages@.len() == 0
            &&& r->Ok_0.attributes@.len() == 0
        },
{
    if *sender != raise.config.gp {
        return Err(ContractError::Unauthorized);
    }
    let mut slot: Option<Vec<Redemption>> = None;
    std::mem::swap(&mut raise.redemptions, &mut slot);
    let mut list = match slot {
        Some(v) => v,
        None => Vec::new(),
    };
    let mut added = redemptions;
    list.append(&mut added);
    raise.redemptions = Some(list);
    Ok(Response::new())
}

/// Removes, for each of `redemptions` in turn, the first outstanding record
/// with its (subscription, asset, capital). Only the gp may; the outstanding
/// list must exist and every record must be found.
pub fn try_cancel_redemptions(raise: &mut Raise, sender: &String, redemptions: Vec<Redemption>) -> (r: Result<Response, ContractError>)
    requires
        old(raise).wf(),
    ensures
        final(raise).wf(),
        r is Err ==> *final(raise) == *old(raise),
        sender@ != old(raise).config.gp@ ==> r == Err::<Response, ContractError>(ContractError::Unauthorized),
        sender@ == old(raise).config.gp@ && old(raise).redemptions is None
            ==> r == Err::<Response, ContractError>(ContractError::NoOutstandingRedemptions),
        sender@ == old(raise).config.gp@ && old(raise).redemptions is Some
            && remove_matches(old(raise).outstanding(), redemptions@) is None
            ==> r == Err::<Response, ContractError>(ContractError::RedemptionNotFound),
        sender@ == old(raise).config.gp@ && old(raise).redemptions is Some
            && remove_matches(old(raise).outstanding(), redemptions@) is Some ==> r is Ok,
        r is Ok ==> {
            &&& sender@ == old(raise).config.gp@
            &&& old(raise).redemptions is Some
            &&& final(raise).redemptions is Some
            &&& remove_matches(old(raise).outstanding(), redemptions@) == Some(final(raise).outstanding())
            &&& final(raise).same_but_redemptions(old(raise))
            &&& r->Ok_0.messages@.len() == 0
            &&& r->Ok_0.attributes@.len() == 0
        },
{
    if *sender != raise.config.gp {
        return Err(ContractError::Unauthorized);
    }
    let mut work = match &raise.redemptions {
        Some(v) => copy_redemptions(v),
        None => return Err(ContractError::NoOutstandingRedemptions),
    };
    let ghost before = *raise;
    assert(redemptions@.subrange(0, redemptions@.len() as int) =~= redemptions@);
    let mut i: usize = 0;
    while i < redemptions.len()
        invariant
            *raise == before,
            before == *old(raise),
            before.redemptions is Some,
            before.wf(),
            sender@ == before.config.gp@,
            i <= redemptions@.len(),
            remove_matches(before.outstanding(), redemptions@)
                == remove_matches(work@, redemptions@.subrange(i as int, redemptions@.len() as int)),
        decreases redemptions@.len() - i,
    {
        let ghost rest = redemptions@.subrange(i as int, redemptions@.len() as int);
        assert(rest[0] == redemptions@[i as int]);
        assert(rest.drop_first() =~= redemptions@.subrange(i + 1, redemptions@.len() as int));
        let c = &redemptions[i];
        match find_match(&work, &c.subscription, c.asset, c.capital) {
            Some(k) => {
                work.remove(k);
            },
            None => return Err(ContractError::RedemptionNotFound),
        }
        i += 1;
    }
    assert(redemptions@.subrange(i as int, redemptions@.len() as int) =~= Seq::<Redemption>::empty());
    raise.redemptions = Some(work);
    Ok(Response::new())
}

/// Why a claim fails, if it does: checked in this order, the record must be
/// outstanding, available at `now`, and paid for with exactly one coin of the
/// investment denom in the amount of its asset.
pub open spec fn claim_error(raise: Raise, sender: Seq<char>, now: u64, funds: Seq<Coin>, asset: u64, capital: u64) -> Option<ContractError> {
    let v = raise.outstanding();
    if !has_match(v, sender, asset, capital) {
        Some(ContractError::RedemptionNotFound)
    } else if v[first_match(v, sender, asset, capital)].available_epoch_seconds matches Some(t) && t > now {
        Some(ContractError::NotYetAvailable)
    } else if funds.len() == 0 {
        Some(ContractError::AssetRequired)
    } else if funds.len() > 1 {
        Some(ContractError::SingleCoinRequired)
    } else if funds[0].denom@ != raise.config.investment_denom@ {
        Some(ContractError::WrongDenom)
    } else if funds[0].amount != asset as u128 {
        Some(ContractError::WrongAmount)
    } else {
        None
    }
}

/// The effects of a claim: capital to `to`, the surrendered investment into
/// its marker, and that investment burnt.
pub open spec fn claim_msgs(raise: Raise, asset: u64, capital: u64, to: String, investment_marker: String) -> Seq<HostMsg> {
    seq![
        HostMsg::Send { to_address: to, denom: raise.config.capital_denom, amount: capital as u128 },
        HostMsg::Send { to_address: investment_marker, denom: raise.config.investment_denom, amount: asset as u128 },
        HostMsg::Burn { denom: raise.config.investment_denom, amount: asset as u128 },
    ]
}

/// The sender claims its redemption of `asset` for `capital`, paying with the
/// attached funds. `investment_marker` is the address of the marker that
/// receives the surrendered investment.
pub fn try_claim_redemption(
    raise: &mut Raise,
    sender: &String,
    now: u64,
    funds: &Vec<Coin>,
    asset: u64,
    capital: u64,
    to: String,
    memo: Option<String>,
    investment_marker: String,
) -> (r: Result<Response, ContractError>)
    requires
        old(raise).wf(),
    ensures
        final(raise).wf(),
        match claim_error(*old(raise), sender@, now, funds@, asset, capital) {
            Some(e) => r == Err::<Response, ContractError>(e) && *final(raise) == *old(raise),
            None => {
                &&& r is Ok
                &&& final(raise).same_but_redemptions(old(raise))
                &&& final(raise).redemptions is Some
                &&& final(raise).outstanding() == old(raise).outstanding().remove(
                    first_match(old(raise).outstanding(), sender@, asset, capital))
                &&& r->Ok_0.messages@ == claim_msgs(*old(raise), asset, capital, to, investment_marker)
                &&& memo is None ==> r->Ok_0.attributes@.len() == 0
                &&& memo is Some ==> r->Ok_0.attributes@.len() == 1
                    && r->Ok_0.attributes@[0].key@ == "memo"@
                    && r->Ok_0.attributes@[0].value == memo->Some_0
            },
        },
{
    let found = match &raise.redemptions {
        Some(v) => find_match(v, sender, asset, capital),
        None => None,
    };
    let k = match found {
        Some(k) => k,
        None => return Err(ContractError::RedemptionNotFound),
    };
    let available = match &raise.redemptions {
        Some(v) => v[k].available_epoch_seconds,
        None => None,
    };
    if let Some(t) = available {
        if t > now {
            return Err(ContractError::NotYetAvailable);
        }
    }
    if funds.len() == 0 {
        return Err(ContractError::AssetRequired);
    }
    if funds.len() > 1 {
        return Err(ContractError::SingleCoinRequired);
    }
    if funds[0].denom != raise.config.investment_denom {
        return Err(ContractError::WrongDenom);
    }
    if funds[0].amount != asset as u128 {
        return Err(ContractError::WrongAmount);
    }
    let mut slot: Option<Vec<Redemption>> = None;
    std::mem::swap(&mut raise.redemptions, &mut slot);
    let mut list = match slot {
        Some(v) => v,
        None => Vec::new(),
    };
    list.remove(k);
    raise.redemptions = Some(list);
    let mut messages: Vec<HostMsg> = Vec::new();
    messages.push(HostMsg::Send { to_address: to, denom: raise.config.capital_denom.clone(), amount: capital as u128 });
    messages.push(HostMsg::Send { to_address: investment_marker, denom: raise.config.investment_denom.clone(), amount: asset as u128 });
    messages.push(HostMsg::Burn { denom: raise.config.investment_denom.clone(), amount: asset as u128 });
    let mut attributes: Vec<Attribute> = Vec::new();
    if let Some(m) = memo {
        attributes.push(Attribute { key: "memo".to_owned(), value: m });
    }
    proof {
        reveal_strlit("memo");
    }
    assert(messages@ =~= claim_msgs(*old(raise), asset, capital, to, investment_marker));
    Ok(Response { messages, attributes })
}

} // verus!
