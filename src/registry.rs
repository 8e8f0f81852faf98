use vstd::prelude::*;

use crate::model::{gate, new_outcome, ContractModel};
use crate::records::{RegistryError, Request, RequestModel, Response, ResponseModel};

verus! {

/// The identities held in a list.
pub open spec fn id_set(ids: Seq<String>) -> Set<Seq<char>> {
    Set::new(|s: Seq<char>| exists|i: int| 0 <= i < ids.len() && (#[trigger] ids[i])@ == s)
}

/// No identity occurs twice in the list.
pub open spec fn distinct_ids(ids: Seq<String>) -> bool {
    forall|i: int, j: int|
        0 <= i < ids.len() && 0 <= j < ids.len() && i != j ==> (#[trigger] ids[i])@ != (#[trigger] ids[j])@
}

/// An association list of `(key, value)` pairs that stands for `map`: keys
/// are distinct, each pair is an entry of the map, and each key of the map
/// has a pair.
pub open spec fn represents<V: View>(entries: Seq<(String, V)>, map: Map<Seq<char>, V::V>) -> bool {
    &&& forall|i: int, j: int|
        0 <= i < entries.len() && 0 <= j < entries.len() && i != j ==> (#[trigger] entries[i]).0@
            != (#[trigger] entries[j]).0@
    &&& forall|i: int|
        0 <= i < entries.len() ==> map.contains_key((#[trigger] entries[i]).0@) && map[entries[i].0@]
            == entries[i].1@
    &&& forall|k: Seq<char>|
        #[trigger] map.contains_key(k) ==> exists|i: int| 0 <= i < entries.len() && (#[trigger] entries[i]).0@ == k
}

/// The map that a list of `(key, value)` pairs builds when each pair is
/// stored in turn, a later pair replacing an earlier one with the same key.
pub open spec fn entries_map<V: View>(entries: Seq<(String, V)>) -> Map<Seq<char>, V::V>
    decreases entries.len(),
{
    if entries.len() == 0 {
        Map::empty()
    } else {
        let last = entries.last();
        entries_map(entries.drop_last()).insert(last.0@, last.1@)
    }
}

/// A registry of requesters, providers, requests and responses.
///
/// Every mutation first checks the caller's role and, when that check fails,
/// returns an error without touching any collection.
pub struct Contract {
    owner: String,
    requesters: Vec<String>,
    providers: Vec<String>,
    requests: Vec<(String, Request)>,
    responses: Vec<(String, Response)>,
    request_map: Ghost<Map<Seq<char>, RequestModel>>,
    response_map: Ghost<Map<Seq<char>, ResponseModel>>,
}

impl View for Contract {
    type V = ContractModel;

    closed spec fn view(&self) -> ContractModel {
        ContractModel {
            owner: self.owner@,
            requesters: id_set(self.requesters@),
            providers: id_set(self.providers@),
            requests: self.request_map@,
            responses: self.response_map@,
        }
    }
}

/// Whether `id` occurs in `ids`.
fn holds_id(ids: &Vec<String>, id: &String) -> (r: bool)
    ensures
        r == id_set(ids@).contains(id@),
{
    let mut i: usize = 0;
    while i < ids.len()
        invariant
            i <= ids.len(),
            forall|j: int| 0 <= j < i ==> (#[trigger] ids@[j])@ != id@,
        decreases ids.len() - i,
    {
        if ids[i] == *id {
            assert(ids@[i as int]@ == id@);
            return true;
        }
        i = i + 1;
    }
    false
}

/// Adds each identity of `added` to `ids` unless it is already there.
fn add_ids(ids: &mut Vec<String>, added: &Vec<String>)
    requires
        distinct_ids(old(ids)@),
    ensures
        distinct_ids(final(ids)@),
        id_set(final(ids)@) == id_set(old(ids)@).union(id_set(added@)),
{
    let mut k: usize = 0;
    while k < added.len()
        invariant
            k <= added.len(),
            distinct_ids(ids@),
            id_set(ids@) == id_set(old(ids)@).union(id_set(added@.subrange(0, k as int))),
        decreases added.len() - k,
    {
        let ghost before = ids@;
        if !holds_id(ids, &added[k]) {
            ids.push(added[k].clone());
            assert(id_set(ids@) =~= id_set(before).insert(added@[k as int]@)) by {
                assert forall|s: Seq<char>| id_set(before).insert(added@[k as int]@).contains(s) implies
                    id_set(ids@).contains(s) by {
                    if s != added@[k as int]@ {
                        let i = choose|i: int| 0 <= i < before.len() && (#[trigger] before[i])@ == s;
                        assert(ids@[i] == before[i]);
                    } else {
                        assert(ids@[before.len() as int] == added@[k as int]);
                    }
                }
            }
        }
        assert(added@.subrange(0, k + 1) =~= added@.subrange(0, k as int).push(added@[k as int]));
        assert(id_set(added@.subrange(0, k + 1)) =~= id_set(added@.subrange(0, k as int)).insert(
            added@[k as int]@,
        )) by {
            let next = added@.subrange(0, k + 1);
            assert forall|s: Seq<char>| id_set(next).contains(s) implies id_set(
                added@.subrange(0, k as int),
            ).insert(added@[k as int]@).contains(s) by {
                let i = choose|i: int| 0 <= i < next.len() && (#[trigger] next[i])@ == s;
                if i < k {
                    assert(added@.subrange(0, k as int)[i] == next[i]);
                }
            }
            assert forall|s: Seq<char>| id_set(added@.subrange(0, k as int)).contains(s) implies id_set(
                next,
            ).contains(s) by {
                let i = choose|i: int| 0 <= i < k && (#[trigger] added@.subrange(0, k as int)[i])@ == s;
                assert(next[i] == added@.subrange(0, k as int)[i]);
            }
            assert(next[k as int] == added@[k as int]);
        }
        k = k + 1;
    }
    assert(added@.subrange(0, added.len() as int) =~= added@);
}

/// Where `key` stands in `entries`, if it does.
fn position_of<V>(entries: &Vec<(String, V)>, key: &String) -> (r: Option<usize>)
    ensures
        match r {
            Some(i) => i < entries@.len() && entries@[i as int].0@ == key@,
            None => forall|i: int| 0 <= i < entries@.len() ==> (#[trigger] entries@[i]).0@ != key@,
        },
{
    let mut i: usize = 0;
    while i < entries.len()
        invariant
            i <= entries.len(),
            forall|j: int| 0 <= j < i ==> (#[trigger] entries@[j]).0@ != key@,
        decreases entries.len() - i,
    {
        if entries[i].0 == *key {
            return Some(i);
        }
        i = i + 1;
    }
    None
}

/// Stores `value` under `key`, replacing the pair that has the key if there
/// is one.
fn put<V: View>(entries: &mut Vec<(String, V)>, map: Ghost<Map<Seq<char>, V::V>>, key: String, value: V)
    requires
        represents(old(entries)@, map@),
    ensures
        represents(final(entries)@, map@.insert(key@, value@)),
{
    let ghost k = key@;
    let ghost v = value@;
    let ghost new_map = map@.insert(k, v);
    match position_of(entries, &key) {
        Some(i) => {
            entries[i] = (key, value);
            assert forall|j: int| 0 <= j < entries@.len() implies new_map.contains_key(
                (#[trigger] entries@[j]).0@,
            ) && new_map[entries@[j].0@] == entries@[j].1@ by {
                if j != i {
                    assert(old(entries)@[j] == entries@[j]);
                }
            }
            assert forall|key2: Seq<char>| #[trigger] new_map.contains_key(key2) implies exists|j: int|
                0 <= j < entries@.len() && (#[trigger] entries@[j]).0@ == key2 by {
                if key2 != k {
                    let j = choose|j: int| 0 <= j < old(entries)@.len() && (#[trigger] old(entries)@[j]).0@ == key2;
                    assert(entries@[j] == old(entries)@[j]);
                } else {
                    assert(entries@[i as int].0@ == k);
                }
            }
        },
        None => {
            entries.push((key, value));
            let ghost n = old(entries)@.len() as int;
            assert(entries@[n].0@ == k);
            assert forall|j: int| 0 <= j < entries@.len() implies new_map.contains_key(
                (#[trigger] entries@[j]).0@,
            ) && new_map[entries@[j].0@] == entries@[j].1@ by {
                if j != n {
                    assert(old(entries)@[j] == entries@[j]);
                }
            }
            assert forall|key2: Seq<char>| #[trigger] new_map.contains_key(key2) implies exists|j: int|
                0 <= j < entries@.len() && (#[trigger] entries@[j]).0@ == key2 by {
                if key2 != k {
                    let j = choose|j: int| 0 <= j < old(entries)@.len() && (#[trigger] old(entries)@[j]).0@ == key2;
                    assert(entries@[j] == old(entries)@[j]);
                }
            }
            assert forall|a: int, b: int|
                0 <= a < entries@.len() && 0 <= b < entries@.len() && a != b implies (#[trigger] entries@[a]).0@
                != (#[trigger] entries@[b]).0@ by {
                if a < n && b < n {
                    assert(entries@[a] == old(entries)@[a]);
                    assert(entries@[b] == old(entries)@[b]);
                } else if a < n {
                    assert(entries@[a] == old(entries)@[a]);
                } else {
                    assert(entries@[b] == old(entries)@[b]);
                }
            }
        },
    }
}

impl Contract {
    /// The list fields stand for the model: membership lists hold no
    /// duplicates and the record lists represent the record maps.
    pub closed spec fn wf(&self) -> bool {
        &&& distinct_ids(self.requesters@)
        &&& distinct_ids(self.providers@)
        &&& represents(self.requests@, self.request_map@)
        &&& represents(self.responses@, self.response_map@)
    }

    /// Creates a registry owned by `caller`. Fails with
    /// `AlreadyInitialized` when the host reports that registry state
    /// already exists.
    pub fn new(state_exists: bool, caller: String) -> (r: Result<Contract, RegistryError>)
        ensures
            match r {
                Ok(c) => c.wf() && new_outcome(state_exists, caller@) == Ok::<ContractModel, RegistryError>(c@),
                Err(e) => new_outcome(state_exists, caller@) == Err::<ContractModel, RegistryError>(e),
            },
    {
        if state_exists {
            return Err(RegistryError::AlreadyInitialized);
        }
        let c = Contract {
            owner: caller,
            requesters: Vec::new(),
            providers: Vec::new(),
            requests: Vec::new(),
            responses: Vec::new(),
            request_map: Ghost(Map::empty()),
            response_map: Ghost(Map::empty()),
        };
        assert(id_set(c.requesters@) =~= Set::empty());
        assert(id_set(c.providers@) =~= Set::empty());
        Ok(c)
    }

    /// The owner adds identities to the requesters; an identity already
    /// there stays once. Any other caller gets `Unauthorized`.
    pub fn add_new_requesters(&mut self, caller: &String, requesters: Vec<String>) -> (r: Result<
        (),
        RegistryError,
    >)
        requires
            old(self).wf(),
        ensures
            final(self).wf(),
            r == gate(old(self)@.may_manage(caller@)),
            final(self)@ == old(self)@.after_add_requesters(caller@, id_set(requesters@)),
            r is Err ==> *final(self) == *old(self),
    {
        if *caller != self.owner {
            return Err(RegistryError::Unauthorized);
        }
        add_ids(&mut self.requesters, &requesters);
        Ok(())
    }

    /// The owner adds identities to the providers; an identity already
    /// there stays once. Any other caller gets `Unauthorized`.
    pub fn add_new_providers(&mut self, caller: &String, providers: Vec<String>) -> (r: Result<
        (),
        RegistryError,
    >)
        requires
            old(self).wf(),
        ensures
            final(self).wf(),
            r == gate(old(self)@.may_manage(caller@)),
            final(self)@ == old(self)@.after_add_providers(caller@, id_set(providers@)),
            r is Err ==> *final(self) == *old(self),
    {
        if *caller != self.owner {
            return Err(RegistryError::Unauthorized);
        }
        add_ids(&mut self.providers, &providers);
        Ok(())
    }

    /// A requester stores `request` under `request_id`, replacing any
    /// request stored there. Any other caller gets `Unauthorized`.
    pub fn create_request(&mut self, caller: &String, request_id: &String, request: &Request) -> (r: Result<
        (),
        RegistryError,
    >)
        requires
            old(self).wf(),
        ensures
            final(self).wf(),
            r == gate(old(self)@.may_request(caller@)),
            final(self)@ == old(self)@.after_create_request(caller@, request_id@, request@),
            r is Err ==> *final(self) == *old(self),
    {
        if !holds_id(&self.requesters, caller) {
            return Err(RegistryError::Unauthorized);
        }
        let record = request.duplicate();
        put(&mut self.requests, self.request_map, request_id.clone(), record);
        self.request_map = Ghost(self.request_map@.insert(request_id@, request@));
        Ok(())
    }

    /// A provider records `response_string` for `request_id`, stamped with
    /// `timestamp`, the host's current time; it replaces any response stored
    /// there. The request id need not name a stored request. Any other
    /// caller gets `Unauthorized`.
    pub fn provide_data(
        &mut self,
        caller: &String,
        request_id: &String,
        response_string: &String,
        timestamp: u64,
    ) -> (r: Result<(), RegistryError>)
        requires
            old(self).wf(),
        ensures
            final(self).wf(),
            r == gate(old(self)@.may_provide(caller@)),
            final(self)@ == old(self)@.after_provide_data(caller@, request_id@, response_string@, timestamp),
            r is Err ==> *final(self) == *old(self),
    {
        if !holds_id(&self.providers, caller) {
            return Err(RegistryError::Unauthorized);
        }
        let response = Response { result: response_string.clone(), timestamp };
        put(&mut self.responses, self.response_map, request_id.clone(), response);
        self.response_map = Ghost(
            self.response_map@.insert(request_id@, ResponseModel { result: response_string@, timestamp }),
        );
        Ok(())
    }

    /// Every stored request, each once, in storage order.
    pub fn get_all_requests(&self) -> (r: Vec<Request>)
        requires
            self.wf(),
        ensures
            self@.lists_all_requests(r@.map_values(|q: Request| q@)),
    {
        let mut out: Vec<Request> = Vec::new();
        let mut i: usize = 0;
        while i < self.requests.len()
            invariant
                i <= self.requests@.len(),
                out@.len() == i,
                forall|j: int| 0 <= j < i ==> (#[trigger] out@[j])@ == self.requests@[j].1@,
            decreases self.requests@.len() - i,
        {
            out.push(self.requests[i].1.duplicate());
            i = i + 1;
        }
        let ghost entries = self.requests@;
        let ghost ids = entries.map_values(|e: (String, Request)| e.0@);
        let ghost list = out@.map_values(|q: Request| q@);
        assert(ids.no_duplicates()) by {
            assert forall|a: int, b: int| 0 <= a < ids.len() && 0 <= b < ids.len() && a != b implies ids[a]
                != ids[b] by {
                assert(entries[a].0@ != entries[b].0@);
            }
        }
        assert(ids.to_set() =~= self@.requests.dom()) by {
            assert forall|k: Seq<char>| ids.to_set().contains(k) implies self@.requests.dom().contains(k) by {
                let j = choose|j: int| 0 <= j < ids.len() && ids[j] == k;
                assert(self.request_map@.contains_key(entries[j].0@));
            }
            assert forall|k: Seq<char>| self@.requests.dom().contains(k) implies ids.to_set().contains(k) by {
                assert(self.request_map@.contains_key(k));
                let j = choose|j: int| 0 <= j < entries.len() && (#[trigger] entries[j]).0@ == k;
                assert(ids[j] == k);
            }
        }
        assert forall|j: int| 0 <= j < ids.len() implies #[trigger] list[j] == self@.requests[ids[j]] by {
            assert(self.request_map@.contains_key(entries[j].0@));
        }
        proof {
            lemma_lists_all_requests_intro(self@, ids, list);
        }
        out
    }

    /// The response stored for `request_id`, or `None` where there is none.
    pub fn get_data_response(&self, request_id: &String) -> (r: Option<Response>)
        requires
            self.wf(),
        ensures
            match r {
                Some(x) => self@.response_of(request_id@) == Some(x@),
                None => self@.response_of(request_id@) is None,
            },
    {
        match position_of(&self.responses, request_id) {
            Some(i) => Some(self.responses[i].1.duplicate()),
            None => {
                assert(!self.response_map@.contains_key(request_id@));
                None
            },
        }
    }
}

/// Introduces `lists_all_requests` from an enumeration of the request ids.
proof fn lemma_lists_all_requests_intro(m: ContractModel, ids: Seq<Seq<char>>, list: Seq<RequestModel>)
    requires
        ids.no_duplicates(),
        ids.to_set() == m.requests.dom(),
        ids.len() == list.len(),
        forall|j: int| 0 <= j < ids.len() ==> #[trigger] list[j] == m.requests[ids[j]],
    ensures
        m.lists_all_requests(list),
{
}

/// Copies of the identities in `ids`, in order.
fn copy_ids(ids: &Vec<String>) -> (r: Vec<String>)
    ensures
        r@ == ids@,
{
    let mut out: Vec<String> = Vec::new();
    let mut i: usize = 0;
    while i < ids.len()
        invariant
            i <= ids@.len(),
            out@ == ids@.subrange(0, i as int),
        decreases ids@.len() - i,
    {
        out.push(ids[i].clone());
        assert(out@ =~= ids@.subrange(0, i + 1));
        i = i + 1;
    }
    assert(out@ =~= ids@);
    out
}

impl Contract {
    /// The identity that created the registry.
    pub fn owner(&self) -> (r: &String)
        ensures
            r@ == self@.owner,
    {
        &self.owner
    }

    /// The requesters, each once.
    pub fn requester_ids(&self) -> (r: Vec<String>)
        requires
            self.wf(),
        ensures
            distinct_ids(r@),
            id_set(r@) == self@.requesters,
    {
        copy_ids(&self.requesters)
    }

    /// The providers, each once.
    pub fn provider_ids(&self) -> (r: Vec<String>)
        requires
            self.wf(),
        ensures
            distinct_ids(r@),
            id_set(r@) == self@.providers,
    {
        copy_ids(&self.providers)
    }

    /// The stored requests with their ids, each id once.
    pub fn request_entries(&self) -> (r: Vec<(String, Request)>)
        requires
            self.wf(),
        ensures
            represents(r@, self@.requests),
    {
        let mut out: Vec<(String, Request)> = Vec::new();
        let mut i: usize = 0;
        while i < self.requests.len()
            invariant
                i <= self.requests@.len(),
                out@.len() == i,
                forall|j: int| 0 <= j < i ==> (#[trigger] out@[j]).0@ == self.requests@[j].0@ && out@[j].1@
                    == self.requests@[j].1@,
            decreases self.requests@.len() - i,
        {
            out.push((self.requests[i].0.clone(), self.requests[i].1.duplicate()));
            i = i + 1;
        }
        assert forall|k: Seq<char>| #[trigger] self.request_map@.contains_key(k) implies exists|j: int|
            0 <= j < out@.len() && (#[trigger] out@[j]).0@ == k by {
            let j = choose|j: int| 0 <= j < self.requests@.len() && (#[trigger] self.requests@[j]).0@ == k;
            assert(out@[j].0@ == k);
        }
        assert forall|a: int, b: int| 0 <= a < out@.len() && 0 <= b < out@.len() && a != b implies (#[trigger] out@[a]).0@
            != (#[trigger] out@[b]).0@ by {
            assert(self.requests@[a].0@ != self.requests@[b].0@);
        }
        assert forall|j: int| 0 <= j < out@.len() implies self.request_map@.contains_key((#[trigger] out@[j]).0@)
            && self.request_map@[out@[j].0@] == out@[j].1@ by {
            assert(self.request_map@.contains_key(self.requests@[j].0@));
        }
        out
    }

    /// The stored responses with their request ids, each id once.
    pub fn response_entries(&self) -> (r: Vec<(String, Response)>)
        requires
            self.wf(),
        ensures
            represents(r@, self@.responses),
    {
        let mut out: Vec<(String, Response)> = Vec::new();
        let mut i: usize = 0;
        while i < self.responses.len()
            invariant
                i <= self.responses@.len(),
                out@.len() == i,
                forall|j: int| 0 <= j < i ==> (#[trigger] out@[j]).0@ == self.responses@[j].0@ && out@[j].1@
                    == self.responses@[j].1@,
            decreases self.responses@.len() - i,
        {
            out.push((self.responses[i].0.clone(), self.responses[i].1.duplicate()));
            i = i + 1;
        }
        assert forall|k: Seq<char>| #[trigger] self.response_map@.contains_key(k) implies exists|j: int|
            0 <= j < out@.len() && (#[trigger] out@[j]).0@ == k by {
            let j = choose|j: int| 0 <= j < self.responses@.len() && (#[trigger] self.responses@[j]).0@ == k;
            assert(out@[j].0@ == k);
        }
        assert forall|a: int, b: int| 0 <= a < out@.len() && 0 <= b < out@.len() && a != b implies (#[trigger] out@[a]).0@
            != (#[trigger] out@[b]).0@ by {
            assert(self.responses@[a].0@ != self.responses@[b].0@);
        }
        assert forall|j: int| 0 <= j < out@.len() implies self.response_map@.contains_key((#[trigger] out@[j]).0@)
            && self.response_map@[out@[j].0@] == out@[j].1@ by {
            assert(self.response_map@.contains_key(self.responses@[j].0@));
        }
        out
    }

    /// Rebuilds a registry from stored state: the owner, the member lists
    /// (an identity listed twice counts once) and the record lists (a later
    /// pair replaces an earlier one with the same id).
    pub fn from_parts(
        owner: String,
        requesters: Vec<String>,
        providers: Vec<String>,
        requests: Vec<(String, Request)>,
        responses: Vec<(String, Response)>,
    ) -> (r: Contract)
        ensures
            r.wf(),
            r@ == (ContractModel {
                owner: owner@,
                requesters: id_set(requesters@),
                providers: id_set(providers@),
                requests: entries_map(requests@),
                responses: entries_map(responses@),
            }),
    {
        let ghost owner_view = owner@;
        let mut c = Contract {
            owner,
            requesters: Vec::new(),
            providers: Vec::new(),
            requests: Vec::new(),
            responses: Vec::new(),
            request_map: Ghost(Map::empty()),
            response_map: Ghost(Map::empty()),
        };
        assert(id_set(c.requesters@) =~= Set::empty());
        assert(id_set(c.providers@) =~= Set::empty());
        assert(requests@.subrange(0, 0) =~= Seq::<(String, Request)>::empty());
        assert(responses@.subrange(0, 0) =~= Seq::<(String, Response)>::empty());
        add_ids(&mut c.requesters, &requesters);
        add_ids(&mut c.providers, &providers);
        assert(id_set(c.requesters@) =~= id_set(requesters@));
        assert(id_set(c.providers@) =~= id_set(providers@));
        let mut i: usize = 0;
        while i < requests.len()
            invariant
                i <= requests@.len(),
                represents(c.requests@, c.request_map@),
                c.request_map@ == entries_map(requests@.subrange(0, i as int)),
                c.owner@ == owner_view,
                distinct_ids(c.requesters@),
                distinct_ids(c.providers@),
                id_set(c.requesters@) == id_set(requesters@),
                id_set(c.providers@) == id_set(providers@),
                c.responses@.len() == 0,
                c.response_map@ == Map::<Seq<char>, ResponseModel>::empty(),
            decreases requests@.len() - i,
        {
            let (key, value) = (requests[i].0.clone(), requests[i].1.duplicate());
            put(&mut c.requests, c.request_map, key, value);
            c.request_map = Ghost(c.request_map@.insert(requests@[i as int].0@, requests@[i as int].1@));
            assert(requests@.subrange(0, i + 1).drop_last() =~= requests@.subrange(0, i as int));
            i = i + 1;
        }
        assert(requests@.subrange(0, requests@.len() as int) =~= requests@);
        let mut i: usize = 0;
        while i < responses.len()
            invariant
                i <= responses@.len(),
                represents(c.responses@, c.response_map@),
                c.response_map@ == entries_map(responses@.subrange(0, i as int)),
                c.owner@ == owner_view,
                distinct_ids(c.requesters@),
                distinct_ids(c.providers@),
                id_set(c.requesters@) == id_set(requesters@),
                id_set(c.providers@) == id_set(providers@),
                represents(c.requests@, c.request_map@),
                c.request_map@ == entries_map(requests@),
            decreases responses@.len() - i,
        {
            let (key, value) = (responses[i].0.clone(), responses[i].1.duplicate());
            put(&mut c.responses, c.response_map, key, value);
            c.response_map = Ghost(c.response_map@.insert(responses@[i as int].0@, responses@[i as int].1@));
            assert(responses@.subrange(0, i + 1).drop_last() =~= responses@.subrange(0, i as int));
            i = i + 1;
        }
        assert(responses@.subrange(0, responses@.len() as int) =~= responses@);
        c
    }
}

} // verus!
