use vstd::prelude::*;

use crate::records::{RegistryError, RequestModel, ResponseModel};

verus! {

/// The mathematical state of a registry.
pub ghost struct ContractModel {
    /// The identity that created the registry.
    pub owner: Seq<char>,
    /// Identities allowed to create requests.
    pub requesters: Set<Seq<char>>,
    /// Identities allowed to provide data.
    pub providers: Set<Seq<char>>,
    /// Stored requests, by request id.
    pub requests: Map<Seq<char>, RequestModel>,
    /// Stored responses, by request id.
    pub responses: Map<Seq<char>, ResponseModel>,
}

/// What construction yields: an error where registry state already exists,
/// else a fresh registry owned by the caller.
pub open spec fn new_outcome(state_exists: bool, caller: Seq<char>) -> Result<ContractModel, RegistryError> {
    if state_exists {
        Err(RegistryError::AlreadyInitialized)
    } else {
        Ok(ContractModel::initial(caller))
    }
}

/// The outcome of a gated call: success exactly when the caller is allowed.
pub open spec fn gate(allowed: bool) -> Result<(), RegistryError> {
    if allowed {
        Ok(())
    } else {
        Err(RegistryError::Unauthorized)
    }
}

impl ContractModel {
    /// A registry owned by `owner` with no members, requests or responses.
    pub open spec fn initial(owner: Seq<char>) -> ContractModel {
        ContractModel {
            owner,
            requesters: Set::empty(),
            providers: Set::empty(),
            requests: Map::empty(),
            responses: Map::empty(),
        }
    }

    /// Only the owner may change membership.
    pub open spec fn may_manage(self, caller: Seq<char>) -> bool {
        caller == self.owner
    }

    pub open spec fn may_request(self, caller: Seq<char>) -> bool {
        self.requesters.contains(caller)
    }

    pub open spec fn may_provide(self, caller: Seq<char>) -> bool {
        self.providers.contains(caller)
    }

    /// The state after `caller` asks to add `ids` to the requesters.
    pub open spec fn after_add_requesters(self, caller: Seq<char>, ids: Set<Seq<char>>) -> ContractModel {
        if self.may_manage(caller) {
            ContractModel { requesters: self.requesters.union(ids), ..self }
        } else {
            self
        }
    }

    /// The state after `caller` asks to add `ids` to the providers.
    pub open spec fn after_add_providers(self, caller: Seq<char>, ids: Set<Seq<char>>) -> ContractModel {
        if self.may_manage(caller) {
            ContractModel { providers: self.providers.union(ids), ..self }
        } else {
            self
        }
    }

    /// The state after `caller` asks to store `request` under `id`.
    pub open spec fn after_create_request(self, caller: Seq<char>, id: Seq<char>, request: RequestModel) -> ContractModel {
        if self.may_request(caller) {
            ContractModel { requests: self.requests.insert(id, request), ..self }
        } else {
            self
        }
    }

    /// The state after `caller` answers `id` with `result` at time `timestamp`.
    pub open spec fn after_provide_data(
        self,
        caller: Seq<char>,
        id: Seq<char>,
        result: Seq<char>,
        timestamp: u64,
    ) -> ContractModel {
        if self.may_provide(caller) {
            ContractModel {
                responses: self.responses.insert(id, ResponseModel { result, timestamp }),
                ..self
            }
        } else {
            self
        }
    }

    /// The stored response for `id`, if any.
    pub open spec fn response_of(self, id: Seq<char>) -> Option<ResponseModel> {
        if self.responses.dom().contains(id) {
            Some(self.responses[id])
        } else {
            None
        }
    }

    /// `list` holds every stored request exactly once, in some order: it is
    /// the image of a duplicate-free enumeration of the request ids.
    pub open spec fn lists_all_requests(self, list: Seq<RequestModel>) -> bool {
        exists|ids: Seq<Seq<char>>|
            {
                &&& ids.no_duplicates()
                &&& ids.to_set() == self.requests.dom()
                &&& ids.len() == list.len()
                &&& forall|i: int| 0 <= i < ids.len() ==> #[trigger] list[i] == self.requests[ids[i]]
            }
    }
}

} // verus!
