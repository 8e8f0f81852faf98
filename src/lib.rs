//! A permissioned data-exchange registry.
//!
//! Requesters submit data requests keyed by a request id, providers submit
//! time-stamped results for those ids, and anyone may read the latest result.
//! The hosting runtime supplies the caller's identity and the current time
//! with every call.

mod laws;
mod model;
mod records;
mod registry;

pub use laws::{
    lemma_entries_map_of_represented, lemma_last_request_wins, lemma_last_response_wins, lemma_membership_only_grows, lemma_new_only_once,
    lemma_provider_authorization, lemma_read_after_write, lemma_rebuild_round_trip, lemma_requester_authorization,
};
pub use model::{gate, new_outcome, ContractModel};
pub use records::{RegistryError, Request, RequestModel, Response, ResponseModel};
pub use registry::{distinct_ids, entries_map, id_set, represents, Contract};
