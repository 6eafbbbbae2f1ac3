use vstd::prelude::*;

use crate::msg::{AssetExchange, Redemption};

verus! {

/// The raise's parameters, fixed at instantiation.
#[derive(Clone, Debug, PartialEq, Eq)]
pub struct State {
    pub gp: String,
    pub recovery_admin: String,
    pub subscription_code_id: u64,
    pub capital_denom: String,
    pub commitment_denom: String,
    pub investment_denom: String,
    pub capital_per_share: u64,
    pub acceptable_accreditations: Vec<String>,
}

/// An accepted subscription with its queue of exchanges awaiting settlement.
#[derive(Clone, Debug, PartialEq, Eq)]
pub struct AcceptedSubscription {
    pub subscription: String,
    pub exchanges: Vec<AssetExchange>,
}

/// Everything the raise stores: its parameters, the three subscription sets,
/// each accepted subscription's exchange queue, and the outstanding redemptions.
#[derive(Clone, Debug, PartialEq, Eq)]
pub struct Raise {
    pub config: State,
    pub pending: Vec<String>,
    pub eligible: Vec<String>,
    pub accepted: Vec<AcceptedSubscription>,
    pub redemptions: Option<Vec<Redemption>>,
}

/// The set of addresses that a list holds.
pub open spec fn addrs(v: Seq<String>) -> Set<Seq<char>> {
    Set::new(|a: Seq<char>| exists|i: int| 0 <= i < v.len() && v[i]@ == a)
}

/// No address occurs twice in a list.
pub open spec fn distinct(v: Seq<String>) -> bool {
    forall|i: int, j: int| 0 <= i < v.len() && 0 <= j < v.len() && i != j ==> v[i]@ != v[j]@
}

/// The addresses of the accepted subscriptions, in order.
pub open spec fn keys(v: Seq<AcceptedSubscription>) -> Seq<String> {
    v.map_values(|e: AcceptedSubscription| e.subscription)
}

/// Pending addresses, eligible addresses, and the accepted ones with their queues.
pub type Registry = (Set<Seq<char>>, Set<Seq<char>>, Map<Seq<char>, Seq<AssetExchange>>);

/// The queue stored beside an address among the accepted subscriptions.
pub open spec fn queue_at(v: Seq<AcceptedSubscription>, a: Seq<char>) -> Seq<AssetExchange> {
    let i = choose|i: int| 0 <= i < v.len() && v[i].subscription@ == a;
    v[i].exchanges@
}

/// The accepted subscriptions as a map from address to queue.
pub open spec fn queues(v: Seq<AcceptedSubscription>) -> Map<Seq<char>, Seq<AssetExchange>> {
    Map::new(|a: Seq<char>| addrs(keys(v)).contains(a), |a: Seq<char>| queue_at(v, a))
}

/// Every list without repeats, and no address in two of them.
pub open spec fn lists_wf(p: Seq<String>, e: Seq<String>, a: Seq<AcceptedSubscription>) -> bool {
    &&& distinct(p)
    &&& distinct(e)
    &&& distinct(keys(a))
    &&& addrs(p).disjoint(addrs(e))
    &&& addrs(p).disjoint(addrs(keys(a)))
    &&& addrs(e).disjoint(addrs(keys(a)))
}

/// Whether two lists of names have one in common.
pub open spec fn overlap(a: Seq<String>, b: Seq<String>) -> bool {
    exists|i: int, j: int| 0 <= i < a.len() && 0 <= j < b.len() && a[i]@ == b[j]@
}

/// Whether an address with these attributes passes the accreditation gate:
/// always when no accreditation is required, else when it holds one of them.
pub open spec fn accredited(acceptable: Seq<String>, attributes: Seq<String>) -> bool {
    acceptable.len() == 0 || overlap(attributes, acceptable)
}

impl State {
    pub open spec fn wf(&self) -> bool {
        self.capital_per_share > 0
    }
}

impl Raise {
    pub open spec fn pending_set(&self) -> Set<Seq<char>> {
        addrs(self.pending@)
    }

    pub open spec fn eligible_set(&self) -> Set<Seq<char>> {
        addrs(self.eligible@)
    }

    pub open spec fn accepted_set(&self) -> Set<Seq<char>> {
        addrs(keys(self.accepted@))
    }

    /// The exchange queue of an address: empty unless it is accepted.
    pub open spec fn exchanges_of(&self, a: Seq<char>) -> Seq<AssetExchange> {
        if self.accepted_set().contains(a) {
            queue_at(self.accepted@, a)
        } else {
            Seq::empty()
        }
    }

    /// The outstanding redemptions, none when the list was never written.
    pub open spec fn outstanding(&self) -> Seq<Redemption> {
        match self.redemptions {
            Some(v) => v@,
            None => Seq::empty(),
        }
    }

    /// Each set holds an address at most once, and no address is in two sets.
    pub open spec fn wf(&self) -> bool {
        &&& self.config.wf()
        &&& lists_wf(self.pending@, self.eligible@, self.accepted@)
    }

    /// The registry as sets and a map: pending, eligible, and each accepted
    /// address with its exchange queue.
    pub open spec fn model(&self) -> Registry {
        (self.pending_set(), self.eligible_set(), queues(self.accepted@))
    }

    /// A raise with no subscriptions and no redemptions.
    pub fn new(config: State) -> (r: Raise)
        requires
            config.wf(),
        ensures
            r.wf(),
            r.config == config,
            r.pending_set() == Set::<Seq<char>>::empty(),
            r.eligible_set() == Set::<Seq<char>>::empty(),
            r.accepted_set() == Set::<Seq<char>>::empty(),
            r.redemptions is None,
    {
        let r = Raise {
            config,
            pending: Vec::new(),
            eligible: Vec::new(),
            accepted: Vec::new(),
            redemptions: None,
        };
        assert(r.pending_set() =~= Set::<Seq<char>>::empty());
        assert(r.eligible_set() =~= Set::<Seq<char>>::empty());
        assert(keys(r.accepted@) =~= Seq::<String>::empty());
        assert(r.accepted_set() =~= Set::<Seq<char>>::empty());
        r
    }
}

/// The exchange queue of an accepted address is the one stored beside it.
pub proof fn lemma_exchanges_at(r: &Raise, k: int)
    requires
        distinct(keys(r.accepted@)),
        0 <= k < r.accepted@.len(),
    ensures
        r.accepted_set().contains(r.accepted@[k].subscription@),
        r.exchanges_of(r.accepted@[k].subscription@) == r.accepted@[k].exchanges@,
{
    let a = r.accepted@[k].subscription@;
    assert(keys(r.accepted@)[k]@ == a);
    assert(r.accepted_set().contains(a));
    assert(exists|i: int| 0 <= i < r.accepted@.len() && r.accepted@[i].subscription@ == a);
    assert forall|j: int| 0 <= j < r.accepted@.len() && r.accepted@[j].subscription@ == a implies j == k by {
        assert(keys(r.accepted@)[j]@ == a);
    }
}

/// Where an address is in a list.
pub fn find_addr(v: &Vec<String>, a: &String) -> (r: Option<usize>)
    ensures
        match r {
            Some(i) => i < v@.len() && v@[i as int]@ == a@ && addrs(v@).contains(a@),
            None => !addrs(v@).contains(a@),
        },
{
    let mut i: usize = 0;
    while i < v.len()
        invariant
            i <= v@.len(),
            forall|j: int| 0 <= j < i ==> v@[j]@ != a@,
        decreases v@.len() - i,
    {
        if v[i] == *a {
            assert(addrs(v@).contains(a@));
            return Some(i);
        }
        i += 1;
    }
    None
}

/// Where an address is among the accepted subscriptions.
pub fn find_accepted(v: &Vec<AcceptedSubscription>, a: &String) -> (r: Option<usize>)
    ensures
        match r {
            Some(i) => i < v@.len() && v@[i as int].subscription@ == a@ && addrs(keys(v@)).contains(a@),
            None => !addrs(keys(v@)).contains(a@),
        },
{
    let mut i: usize = 0;
    while i < v.len()
        invariant
            i <= v@.len(),
            forall|j: int| 0 <= j < i ==> v@[j].subscription@ != a@,
        decreases v@.len() - i,
    {
        if v[i].subscription == *a {
            assert(keys(v@)[i as int]@ == a@);
            assert(addrs(keys(v@)).contains(a@));
            return Some(i);
        }
        i += 1;
    }
    assert forall|j: int| 0 <= j < v@.len() implies keys(v@)[j]@ != a@ by {
        assert(keys(v@)[j] == v@[j].subscription);
    }
    None
}

/// Takes an address out of a list that holds it at most once.
pub fn remove_addr(v: &mut Vec<String>, a: &String) -> (found: bool)
    requires
        distinct(old(v)@),
    ensures
        found == addrs(old(v)@).contains(a@),
        !found ==> final(v)@ == old(v)@,
        distinct(final(v)@),
        addrs(final(v)@) == addrs(old(v)@).remove(a@),
{
    match find_addr(v, a) {
        Some(i) => {
            let ghost before = v@;
            v.remove(i);
            proof {
                lemma_remove_index(before, i as int);
            }
            true
        },
        None => {
            assert(addrs(v@) =~= addrs(v@).remove(a@));
            false
        },
    }
}

/// Removing the index of an address from a list without repeats removes the
/// address from its set, and leaves the list without repeats.
pub proof fn lemma_remove_index(v: Seq<String>, i: int)
    requires
        distinct(v),
        0 <= i < v.len(),
    ensures
        distinct(v.remove(i)),
        addrs(v.remove(i)) == addrs(v).remove(v[i]@),
{
    let w = v.remove(i);
    assert forall|x: Seq<char>| addrs(w).contains(x) implies addrs(v).remove(v[i]@).contains(x) by {
        let j = choose|j: int| 0 <= j < w.len() && w[j]@ == x;
        if j < i {
            assert(v[j]@ == x);
        } else {
            assert(v[j + 1]@ == x);
        }
    }
    assert forall|x: Seq<char>| addrs(v).remove(v[i]@).contains(x) implies addrs(w).contains(x) by {
        let j = choose|j: int| 0 <= j < v.len() && v[j]@ == x;
        assert(j != i);
        if j < i {
            assert(w[j]@ == x);
        } else {
            assert(w[j - 1]@ == x);
        }
    }
    assert(addrs(w) =~= addrs(v).remove(v[i]@));
}

/// Adding an address that a list lacks adds it to the list's set.
pub proof fn lemma_push_addr(v: Seq<String>, s: String)
    requires
        distinct(v),
        !addrs(v).contains(s@),
    ensures
        distinct(v.push(s)),
        addrs(v.push(s)) == addrs(v).insert(s@),
{
    let w = v.push(s);
    assert forall|i: int, j: int| 0 <= i < w.len() && 0 <= j < w.len() && i != j implies w[i]@ != w[j]@ by {
        if i < v.len() && j < v.len() {
            assert(w[i] == v[i] && w[j] == v[j]);
        } else if i < v.len() {
            assert(addrs(v).contains(v[i]@));
        } else {
            assert(addrs(v).contains(v[j]@));
        }
    }
    assert forall|x: Seq<char>| addrs(w).contains(x) implies addrs(v).insert(s@).contains(x) by {
        let j = choose|j: int| 0 <= j < w.len() && w[j]@ == x;
        if j < v.len() {
            assert(v[j]@ == x);
        }
    }
    assert forall|x: Seq<char>| addrs(v).insert(s@).contains(x) implies addrs(w).contains(x) by {
        if x == s@ {
            assert(w[v.len() as int]@ == x);
        } else {
            let j = choose|j: int| 0 <= j < v.len() && v[j]@ == x;
            assert(w[j]@ == x);
        }
    }
    assert(addrs(w) =~= addrs(v).insert(s@));
}


impl Raise {
    /// `self` and `other` agree on everything but the exchange queue of `a`.
    pub open spec fn same_but_queue(&self, other: &Raise, a: Seq<char>) -> bool {
        &&& self.config == other.config
        &&& self.pending == other.pending
        &&& self.eligible == other.eligible
        &&& self.redemptions == other.redemptions
        &&& keys(self.accepted@) == keys(other.accepted@)
        &&& forall|x: Seq<char>| x != a ==> #[trigger] self.exchanges_of(x) == other.exchanges_of(x)
    }
}

/// Replacing the queue stored at one index changes the queue of that address
/// alone and keeps the raise well formed.
pub proof fn lemma_replace_queue(before: &Raise, after: &Raise, k: int)
    requires
        before.wf(),
        0 <= k < before.accepted@.len(),
        after.config == before.config,
        after.pending == before.pending,
        after.eligible == before.eligible,
        after.redemptions == before.redemptions,
        after.accepted@.len() == before.accepted@.len(),
        after.accepted@[k].subscription == before.accepted@[k].subscription,
        forall|j: int| 0 <= j < before.accepted@.len() && j != k ==> after.accepted@[j] == before.accepted@[j],
    ensures
        after.wf(),
        after.same_but_queue(before, before.accepted@[k].subscription@),
        before.same_but_queue(after, before.accepted@[k].subscription@),
        after.exchanges_of(before.accepted@[k].subscription@) == after.accepted@[k].exchanges@,
{
    assert(keys(after.accepted@) =~= keys(before.accepted@)) by {
        assert forall|j: int| 0 <= j < before.accepted@.len() implies keys(after.accepted@)[j] == keys(before.accepted@)[j] by {
            if j != k {
                assert(after.accepted@[j] == before.accepted@[j]);
            }
        }
    }
    let a = before.accepted@[k].subscription@;
    assert forall|x: Seq<char>| x != a implies #[trigger] after.exchanges_of(x) == before.exchanges_of(x) by {
        if before.accepted_set().contains(x) {
            let j = choose|j: int| 0 <= j < keys(before.accepted@).len() && keys(before.accepted@)[j]@ == x;
            assert(before.accepted@[j].subscription@ == x);
            lemma_exchanges_at(before, j);
            lemma_exchanges_at(after, j);
        }
    }
    lemma_exchanges_at(after, k);
}


/// The queue stored beside an accepted address, in a list without repeats.
pub proof fn lemma_queue_at(v: Seq<AcceptedSubscription>, k: int)
    requires
        distinct(keys(v)),
        0 <= k < v.len(),
    ensures
        addrs(keys(v)).contains(v[k].subscription@),
        queue_at(v, v[k].subscription@) == v[k].exchanges@,
        queues(v).dom().contains(v[k].subscription@),
        queues(v)[v[k].subscription@] == v[k].exchanges@,
{
    let a = v[k].subscription@;
    assert(keys(v)[k]@ == a);
    assert forall|j: int| 0 <= j < v.len() && v[j].subscription@ == a implies j == k by {
        assert(keys(v)[j]@ == a);
    }
}

/// The accepted addresses are the keys of the queue map.
pub proof fn lemma_queues_dom(v: Seq<AcceptedSubscription>)
    ensures
        queues(v).dom() == addrs(keys(v)),
{
    assert(queues(v).dom() =~= addrs(keys(v)));
}

/// Removing an accepted subscription removes its address from the queue map.
pub proof fn lemma_queues_remove(v: Seq<AcceptedSubscription>, k: int)
    requires
        distinct(keys(v)),
        0 <= k < v.len(),
    ensures
        distinct(keys(v.remove(k))),
        addrs(keys(v.remove(k))) == addrs(keys(v)).remove(v[k].subscription@),
        queues(v.remove(k)) == queues(v).remove(v[k].subscription@),
{
    let w = v.remove(k);
    assert(keys(w) =~= keys(v).remove(k));
    lemma_remove_index(keys(v), k);
    lemma_queues_dom(v);
    lemma_queues_dom(w);
    assert forall|x: Seq<char>| #[trigger] queues(w).dom().contains(x) implies queues(w)[x] == queues(v)[x] by {
        let j = choose|j: int| 0 <= j < keys(w).len() && keys(w)[j]@ == x;
        assert(w[j].subscription@ == x);
        lemma_queue_at(w, j);
        if j < k {
            lemma_queue_at(v, j);
        } else {
            lemma_queue_at(v, j + 1);
        }
    }
    assert(queues(w) =~= queues(v).remove(v[k].subscription@));
}

/// Adding a subscription that is not yet accepted adds it to the queue map.
pub proof fn lemma_queues_push(v: Seq<AcceptedSubscription>, e: AcceptedSubscription)
    requires
        distinct(keys(v)),
        !addrs(keys(v)).contains(e.subscription@),
    ensures
        distinct(keys(v.push(e))),
        addrs(keys(v.push(e))) == addrs(keys(v)).insert(e.subscription@),
        queues(v.push(e)) == queues(v).insert(e.subscription@, e.exchanges@),
{
    let w = v.push(e);
    assert(keys(w) =~= keys(v).push(e.subscription));
    lemma_push_addr(keys(v), e.subscription);
    lemma_queues_dom(v);
    lemma_queues_dom(w);
    assert forall|x: Seq<char>| #[trigger] queues(w).dom().contains(x) implies queues(w)[x]
        == queues(v).insert(e.subscription@, e.exchanges@)[x] by {
        let j = choose|j: int| 0 <= j < keys(w).len() && keys(w)[j]@ == x;
        assert(w[j].subscription@ == x);
        lemma_queue_at(w, j);
        if j < v.len() {
            lemma_queue_at(v, j);
        }
    }
    assert(queues(w) =~= queues(v).insert(e.subscription@, e.exchanges@));
}

/// A copy of a queue.
pub fn copy_queue(q: &Vec<AssetExchange>) -> (r: Vec<AssetExchange>)
    ensures
        r@ == q@,
{
    let mut r: Vec<AssetExchange> = Vec::new();
    let mut i: usize = 0;
    while i < q.len()
        invariant
            i <= q@.len(),
            r@ == q@.subrange(0, i as int),
        decreases q@.len() - i,
    {
        r.push(q[i]);
        i += 1;
    }
    assert(r@ =~= q@);
    r
}

/// A copy of a list of addresses.
pub fn copy_addrs(v: &Vec<String>) -> (r: Vec<String>)
    ensures
        r@ == v@,
{
    let mut r: Vec<String> = Vec::new();
    let mut i: usize = 0;
    while i < v.len()
        invariant
            i <= v@.len(),
            r@ == v@.subrange(0, i as int),
        decreases v@.len() - i,
    {
        r.push(v[i].clone());
        i += 1;
    }
    assert(r@ =~= v@);
    r
}

/// Two lists of accepted subscriptions with the same addresses and queues.
pub open spec fn same_entries(a: Seq<AcceptedSubscription>, b: Seq<AcceptedSubscription>) -> bool {
    &&& a.len() == b.len()
    &&& forall|j: int| 0 <= j < a.len() ==> (#[trigger] a[j]).subscription == b[j].subscription
        && a[j].exchanges@ == b[j].exchanges@
}

/// Lists with the same entries have the same addresses and queues.
pub proof fn lemma_same_entries(a: Seq<AcceptedSubscription>, b: Seq<AcceptedSubscription>)
    requires
        same_entries(a, b),
        distinct(keys(b)),
    ensures
        keys(a) == keys(b),
        queues(a) == queues(b),
{
    assert(keys(a) =~= keys(b)) by {
        assert forall|j: int| 0 <= j < a.len() implies keys(a)[j] == keys(b)[j] by {
            assert(a[j].subscription == b[j].subscription);
        }
    }
    assert forall|x: Seq<char>| #[trigger] queues(a).dom().contains(x) implies queues(a)[x] == queues(b)[x] by {
        let j = choose|j: int| 0 <= j < keys(a).len() && keys(a)[j]@ == x;
        assert(a[j].subscription == b[j].subscription);
        lemma_queue_at(a, j);
        lemma_queue_at(b, j);
    }
    assert(queues(a) =~= queues(b));
}

/// A copy of the accepted subscriptions with their queues.
pub fn copy_accepted(v: &Vec<AcceptedSubscription>) -> (r: Vec<AcceptedSubscription>)
    ensures
        same_entries(r@, v@),
{
    let mut r: Vec<AcceptedSubscription> = Vec::new();
    let mut i: usize = 0;
    while i < v.len()
        invariant
            i <= v@.len(),
            same_entries(r@, v@.subrange(0, i as int)),
        decreases v@.len() - i,
    {
        let entry = AcceptedSubscription { subscription: v[i].subscription.clone(), exchanges: copy_queue(&v[i].exchanges) };
        r.push(entry);
        i += 1;
    }
    assert(v@.subrange(0, i as int) =~= v@);
    r
}


/// No address is in two of the sets pending, eligible and accepted. Every
/// handler keeps `wf`, so this holds before and after each call.
pub proof fn lemma_sets_disjoint(r: &Raise)
    requires
        r.wf(),
    ensures
        r.model().0.disjoint(r.model().1),
        r.model().0.disjoint(r.model().2.dom()),
        r.model().1.disjoint(r.model().2.dom()),
{
    lemma_queues_dom(r.accepted@);
}

/// Only an accepted address has a non-empty exchange queue.
pub proof fn lemma_queue_only_if_accepted(r: &Raise, s: Seq<char>)
    requires
        r.wf(),
    ensures
        r.exchanges_of(s).len() > 0 ==> r.accepted_set().contains(s) && r.model().2.dom().contains(s),
{
    lemma_queues_dom(r.accepted@);
}

} // verus!
