//! The error body every endpoint answers with, and the HTTP status each
//! error code maps to.
use vstd::prelude::*;

use crate::text::{owned, str_eq};

verus! {

#[verifier::external_type_specification]
#[verifier::external_body]
pub struct ExJsonValue(serde_json::Value);

/// An API error: which request it answers, a machine-readable code and a message.
#[derive(Debug)]
pub struct ApiError {
    pub request_id: String,
    pub error_code: String,
    pub message: String,
    pub details: Option<serde_json::Value>,
}

/// `e` is an error with code `code` for request `request_id` carrying `message`.
pub open spec fn is_error(e: ApiError, code: Seq<char>, request_id: Seq<char>, message: Seq<char>) -> bool {
    &&& e.error_code@ == code
    &&& e.request_id@ == request_id
    &&& e.message@ == message
    &&& e.details is None
}

/// `r` is an error with code `code` for request `request_id` carrying `message`.
pub open spec fn fails_with<T>(r: Result<T, ApiError>, code: Seq<char>, request_id: Seq<char>, message: Seq<char>) -> bool {
    match r {
        Err(e) => is_error(e, code, request_id, message),
        Ok(_) => false,
    }
}

/// The HTTP status an error code is answered with; unknown codes give 500.
pub open spec fn status_for_code(code: Seq<char>) -> u16 {
    if code == "not_found"@ {
        404
    } else if code == "unauthorised"@ {
        401
    } else if code == "forbidden"@ {
        403
    } else if code == "validation_error"@ {
        422
    } else if code == "conflict"@ {
        409
    } else {
        500
    }
}

impl ApiError {
    fn with_code(code: &str, request_id: &str, message: &str) -> (e: ApiError)
        ensures
            is_error(e, code@, request_id@, message@),
    {
        ApiError {
            request_id: owned(request_id),
            error_code: owned(code),
            message: owned(message),
            details: None,
        }
    }

    pub fn not_found(request_id: &str, message: &str) -> (e: ApiError)
        ensures
            is_error(e, "not_found"@, request_id@, message@),
    {
        ApiError::with_code("not_found", request_id, message)
    }

    pub fn unauthorised(request_id: &str, message: &str) -> (e: ApiError)
        ensures
            is_error(e, "unauthorised"@, request_id@, message@),
    {
        ApiError::with_code("unauthorised", request_id, message)
    }

    pub fn forbidden(request_id: &str, message: &str) -> (e: ApiError)
        ensures
            is_error(e, "forbidden"@, request_id@, message@),
    {
        ApiError::with_code("forbidden", request_id, message)
    }

    pub fn validation_error(request_id: &str, message: &str) -> (e: ApiError)
        ensures
            is_error(e, "validation_error"@, request_id@, message@),
    {
        ApiError::with_code("validation_error", request_id, message)
    }

    /// A stale write: the stored version moved on since the client read it.
    pub fn conflict(request_id: &str, message: &str) -> (e: ApiError)
        ensures
            is_error(e, "conflict"@, request_id@, message@),
    {
        ApiError::with_code("conflict", request_id, message)
    }

    pub fn internal(request_id: &str, message: &str) -> (e: ApiError)
        ensures
            is_error(e, "internal_error"@, request_id@, message@),
    {
        ApiError::with_code("internal_error", request_id, message)
    }

    /// The HTTP status code this error is answered with.
    pub fn status_code(&self) -> (s: u16)
        ensures
            s == status_for_code(self.error_code@),
    {
        let code = self.error_code.as_str();
        if str_eq(code, "not_found") {
            404
        } else if str_eq(code, "unauthorised") {
            401
        } else if str_eq(code, "forbidden") {
            403
        } else if str_eq(code, "validation_error") {
            422
        } else if str_eq(code, "conflict") {
            409
        } else {
            500
        }
    }
}

} // verus!
