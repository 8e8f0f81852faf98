use vstd::prelude::*;

verus! {

/// A data request: the resource to fetch, where to look inside its result,
/// and an advisory refresh interval.
#[derive(Clone, Debug, PartialEq, Eq)]
pub struct Request {
    pub request_id: String,
    pub json_path: String,
    pub uri: String,
    pub period: Option<u64>,
}

/// The mathematical value of a [`Request`].
pub ghost struct RequestModel {
    pub request_id: Seq<char>,
    pub json_path: Seq<char>,
    pub uri: Seq<char>,
    pub period: Option<u64>,
}

impl View for Request {
    type V = RequestModel;

    open spec fn view(&self) -> RequestModel {
        RequestModel {
            request_id: self.request_id@,
            json_path: self.json_path@,
            uri: self.uri@,
            period: self.period,
        }
    }
}

impl Request {
    /// A field-by-field copy with the same value as `self`.
    pub fn duplicate(&self) -> (r: Request)
        ensures
            r@ == self@,
    {
        Request {
            request_id: self.request_id.clone(),
            json_path: self.json_path.clone(),
            uri: self.uri.clone(),
            period: self.period,
        }
    }
}

/// A provider's answer to a request, stamped with the time it was recorded.
#[derive(Clone, Debug, PartialEq, Eq)]
pub struct Response {
    pub result: String,
    pub timestamp: u64,
}

/// The mathematical value of a [`Response`].
pub ghost struct ResponseModel {
    pub result: Seq<char>,
    pub timestamp: u64,
}

impl View for Response {
    type V = ResponseModel;

    open spec fn view(&self) -> ResponseModel {
        ResponseModel { result: self.result@, timestamp: self.timestamp }
    }
}

impl Response {
    /// A field-by-field copy with the same value as `self`.
    pub fn duplicate(&self) -> (r: Response)
        ensures
            r@ == self@,
    {
        Response { result: self.result.clone(), timestamp: self.timestamp }
    }
}

/// Why a call on the registry was rejected.
#[derive(Clone, Copy, Debug, PartialEq, Eq, Structural)]
pub enum RegistryError {
    /// Construction was attempted where registry state already exists.
    AlreadyInitialized,
    /// The caller lacks the role that the operation requires.
    Unauthorized,
}

impl RegistryError {
    /// A human-readable reason for the rejection.
    pub fn message(&self) -> (r: &'static str) {
        match self {
            RegistryError::AlreadyInitialized => "Already initialized",
            RegistryError::Unauthorized => "Caller is not authorized for this operation",
        }
    }
}

} // verus!
