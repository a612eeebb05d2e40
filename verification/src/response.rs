//! The envelope of every answer, and the request id it carries.
use vstd::prelude::*;

use crate::error::{fails_with, ApiError};
use crate::text::owned;

verus! {

/// The id of the request being answered, as the request-id layer set it.
#[derive(Debug)]
pub struct RequestId(pub String);

impl RequestId {
    /// The request id from the `x-request-id` header; a request without one
    /// (the layer was not installed) is an internal error.
    pub fn from_header(header: Option<&str>) -> (r: Result<RequestId, ApiError>)
        ensures
            header matches Some(h) ==> (r matches Ok(id) && id.0@ == h@),
            header is None ==> fails_with(r, "internal_error"@, "missing"@, "request_id not set"@),
    {
        match header {
            Some(h) => Ok(RequestId(owned(h))),
            None => Err(ApiError::internal("missing", "request_id not set")),
        }
    }
}

/// What an answer says about the request it answers.
#[derive(Debug)]
pub struct ResponseMeta {
    pub request_id: String,
    pub audit_event_id: Option<String>,
}

impl ResponseMeta {
    /// The meta of an answer to request `request_id`.
    pub fn for_request(request_id: String) -> (r: ResponseMeta)
        ensures
            r.request_id == request_id,
            r.audit_event_id is None,
    {
        ResponseMeta { request_id, audit_event_id: None }
    }
}

/// A successful answer: the data and the meta.
#[derive(Debug)]
pub struct ApiResponse<T> {
    pub data: T,
    pub meta: ResponseMeta,
}

/// A list answer: the items and, when there are more, where to continue.
#[derive(Debug)]
pub struct ListData<T> {
    pub items: Vec<T>,
    pub next_cursor: Option<String>,
}

} // verus!
