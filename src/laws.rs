use vstd::prelude::*;

use crate::model::{gate, new_outcome, ContractModel};
use crate::records::{RegistryError, Request, RequestModel, Response, ResponseModel};
use crate::registry::{entries_map, id_set, represents};

verus! {

/// Construction happens once: on fresh state it yields an empty registry
/// owned by the caller, and once registry state exists every further
/// construction fails with `AlreadyInitialized` and yields no registry, so
/// the existing one is left as it was.
pub proof fn lemma_new_only_once(first: Seq<char>, second: Seq<char>)
    ensures
        new_outcome(false, first) == Ok::<ContractModel, RegistryError>(ContractModel::initial(first)),
        new_outcome(true, second) == Err::<ContractModel, RegistryError>(RegistryError::AlreadyInitialized),
{
}

/// An identity outside the requesters is refused and leaves the registry
/// unchanged; once the owner has added it, the same request is stored.
pub proof fn lemma_requester_authorization(
    m: ContractModel,
    x: Seq<char>,
    added: Set<Seq<char>>,
    id: Seq<char>,
    request: RequestModel,
)
    requires
        !m.requesters.contains(x),
        added.contains(x),
    ensures
        gate(m.may_request(x)) == Err::<(), RegistryError>(RegistryError::Unauthorized),
        m.after_create_request(x, id, request) == m,
        gate(m.after_add_requesters(m.owner, added).may_request(x)) == Ok::<(), RegistryError>(()),
        m.after_add_requesters(m.owner, added).after_create_request(x, id, request).requests
            == m.requests.insert(id, request),
{
}

/// An identity outside the providers is refused and leaves the registry
/// unchanged; once the owner has added it, the same response is stored.
pub proof fn lemma_provider_authorization(
    m: ContractModel,
    x: Seq<char>,
    added: Set<Seq<char>>,
    id: Seq<char>,
    result: Seq<char>,
    timestamp: u64,
)
    requires
        !m.providers.contains(x),
        added.contains(x),
    ensures
        gate(m.may_provide(x)) == Err::<(), RegistryError>(RegistryError::Unauthorized),
        m.after_provide_data(x, id, result, timestamp) == m,
        gate(m.after_add_providers(m.owner, added).may_provide(x)) == Ok::<(), RegistryError>(()),
        m.after_add_providers(m.owner, added).after_provide_data(x, id, result, timestamp).responses
            == m.responses.insert(id, ResponseModel { result, timestamp }),
{
}

/// Two requests stored under one id by a requester: the second replaces
/// the first.
pub proof fn lemma_last_request_wins(
    m: ContractModel,
    caller: Seq<char>,
    id: Seq<char>,
    first: RequestModel,
    second: RequestModel,
)
    requires
        m.may_request(caller),
    ensures
        m.after_create_request(caller, id, first).after_create_request(caller, id, second).requests
            == m.requests.insert(id, second),
        m.after_create_request(caller, id, first).after_create_request(caller, id, second).requests[id]
            == second,
{
    assert(m.requests.insert(id, first).insert(id, second) =~= m.requests.insert(id, second));
}

/// Two responses recorded for one id by a provider: the second replaces
/// the first.
pub proof fn lemma_last_response_wins(
    m: ContractModel,
    caller: Seq<char>,
    id: Seq<char>,
    first: Seq<char>,
    first_time: u64,
    second: Seq<char>,
    second_time: u64,
)
    requires
        m.may_provide(caller),
    ensures
        m.after_provide_data(caller, id, first, first_time).after_provide_data(
            caller,
            id,
            second,
            second_time,
        ).response_of(id) == Some(ResponseModel { result: second, timestamp: second_time }),
        m.after_provide_data(caller, id, first, first_time).after_provide_data(
            caller,
            id,
            second,
            second_time,
        ).responses == m.responses.insert(id, ResponseModel { result: second, timestamp: second_time }),
{
    let r1 = ResponseModel { result: first, timestamp: first_time };
    let r2 = ResponseModel { result: second, timestamp: second_time };
    assert(m.responses.insert(id, r1).insert(id, r2) =~= m.responses.insert(id, r2));
}

/// After a provider records `result` for `id` at time `timestamp`, reading
/// `id` gives exactly that result and time.
pub proof fn lemma_read_after_write(
    m: ContractModel,
    caller: Seq<char>,
    id: Seq<char>,
    result: Seq<char>,
    timestamp: u64,
)
    requires
        m.may_provide(caller),
    ensures
        m.after_provide_data(caller, id, result, timestamp).response_of(id) == Some(
            ResponseModel { result, timestamp },
        ),
{
}

/// No operation removes a requester or a provider, and adding an empty set
/// of identities changes nothing.
pub proof fn lemma_membership_only_grows(
    m: ContractModel,
    caller: Seq<char>,
    added: Set<Seq<char>>,
    id: Seq<char>,
    request: RequestModel,
    result: Seq<char>,
    timestamp: u64,
)
    ensures
        m.requesters.subset_of(m.after_add_requesters(caller, added).requesters),
        m.providers.subset_of(m.after_add_requesters(caller, added).providers),
        m.requesters.subset_of(m.after_add_providers(caller, added).requesters),
        m.providers.subset_of(m.after_add_providers(caller, added).providers),
        m.after_create_request(caller, id, request).requesters == m.requesters,
        m.after_create_request(caller, id, request).providers == m.providers,
        m.after_provide_data(caller, id, result, timestamp).requesters == m.requesters,
        m.after_provide_data(caller, id, result, timestamp).providers == m.providers,
        m.after_add_requesters(caller, Set::empty()).requesters == m.requesters,
        m.after_add_providers(caller, Set::empty()).providers == m.providers,
{
    assert(m.requesters.union(Set::empty()) =~= m.requesters);
    assert(m.providers.union(Set::empty()) =~= m.providers);
}

/// Storing in turn the pairs of a list that represents a map builds that map.
pub proof fn lemma_entries_map_of_represented<V: View>(entries: Seq<(String, V)>, map: Map<Seq<char>, V::V>)
    requires
        represents(entries, map),
    ensures
        entries_map(entries) == map,
    decreases entries.len(),
{
    if entries.len() == 0 {
        assert(map =~= Map::empty()) by {
            assert forall|k: Seq<char>| !map.contains_key(k) by {
                if map.contains_key(k) {
                    let i = choose|i: int| 0 <= i < entries.len() && (#[trigger] entries[i]).0@ == k;
                }
            }
        }
    } else {
        let n = entries.len() - 1;
        let last = entries.last();
        let rest = entries.drop_last();
        let smaller = map.remove(last.0@);
        assert(map.contains_key(entries[n].0@));
        assert forall|i: int| 0 <= i < rest.len() implies smaller.contains_key((#[trigger] rest[i]).0@)
            && smaller[rest[i].0@] == rest[i].1@ by {
            assert(rest[i] == entries[i]);
            assert(entries[i].0@ != entries[n].0@);
        }
        assert forall|k: Seq<char>| #[trigger] smaller.contains_key(k) implies exists|i: int|
            0 <= i < rest.len() && (#[trigger] rest[i]).0@ == k by {
            let i = choose|i: int| 0 <= i < entries.len() && (#[trigger] entries[i]).0@ == k;
            assert(i != n);
            assert(rest[i] == entries[i]);
        }
        assert forall|a: int, b: int| 0 <= a < rest.len() && 0 <= b < rest.len() && a != b implies (#[trigger] rest[a]).0@
            != (#[trigger] rest[b]).0@ by {
            assert(rest[a] == entries[a]);
            assert(rest[b] == entries[b]);
        }
        lemma_entries_map_of_represented(rest, smaller);
        assert(smaller.insert(last.0@, last.1@) =~= map);
    }
}

/// Exported state rebuilds the registry it came from: any member lists
/// with the same identities and any record lists that represent the same
/// maps give back the same owner, members, requests and responses.
pub proof fn lemma_rebuild_round_trip(
    m: ContractModel,
    requesters: Seq<String>,
    providers: Seq<String>,
    requests: Seq<(String, Request)>,
    responses: Seq<(String, Response)>,
)
    requires
        id_set(requesters) == m.requesters,
        id_set(providers) == m.providers,
        represents(requests, m.requests),
        represents(responses, m.responses),
    ensures
        (ContractModel {
            owner: m.owner,
            requesters: id_set(requesters),
            providers: id_set(providers),
            requests: entries_map(requests),
            responses: entries_map(responses),
        }) == m,
{
    lemma_entries_map_of_represented(requests, m.requests);
    lemma_entries_map_of_represented(responses, m.responses);
}

} // verus!
