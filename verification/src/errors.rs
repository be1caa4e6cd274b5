//! Shared UDS error taxonomy and its safe HTTP classification.
//!
//! Internal failures map to stable status codes without leaking secrets or
//! file-system details to remote callers.

use vstd::prelude::*;

verus! {

#[verifier::external_type_specification]
#[verifier::external_body]
pub struct ExIoError(std::io::Error);

#[verifier::external_type_specification]
#[verifier::external_body]
pub struct ExJsonError(serde_json::Error);

#[verifier::external_type_specification]
#[verifier::external_body]
pub struct ExTomlDeError(toml::de::Error);

#[verifier::external_type_specification]
#[verifier::external_body]
pub struct ExUuid(uuid::Uuid);

/// Failures that can propagate across UDS service and route boundaries.
pub enum UdsError {
    BadRequest(String),
    Unauthorized,
    Forbidden,
    FleetUnavailable,
    PayloadTooLarge(String),
    NotFound(String),
    Conflict(String),
    Config(String),
    Storage(String),
    Io(std::io::Error),
    Json(serde_json::Error),
    TomlDe(toml::de::Error),
    Semver(semver::Error),
}

/// Shared result type of UDS operations.
pub type Result<T> = core::result::Result<T, UdsError>;

/// Context kept with an HTTP error response.
#[derive(Clone, Copy, Debug)]
pub struct ErrorResponseMetadata {
    pub error_id: uuid::Uuid,
    /// Whether the failure is internal (a 5xx status).
    pub internal: bool,
}

/// The safe HTTP answer to a failure: status, public message, stable code.
pub struct ErrorReply {
    pub status: u16,
    pub error: String,
    pub code: &'static str,
    pub metadata: ErrorResponseMetadata,
}

/// The HTTP status of each failure.
pub open spec fn spec_status(e: UdsError) -> u16 {
    match e {
        UdsError::BadRequest(_) => 400,
        UdsError::Unauthorized => 401,
        UdsError::Forbidden => 403,
        UdsError::FleetUnavailable => 503,
        UdsError::PayloadTooLarge(_) => 413,
        UdsError::NotFound(_) => 404,
        UdsError::Conflict(_) => 409,
        _ => 500,
    }
}

/// The public message of each failure: the caller's own detail for client
/// errors, a fixed text otherwise.
pub open spec fn spec_public_message(e: UdsError) -> Seq<char> {
    match e {
        UdsError::BadRequest(m) => m@,
        UdsError::Unauthorized => "unauthorized"@,
        UdsError::Forbidden => "forbidden"@,
        UdsError::FleetUnavailable => "fleet confirmation unavailable"@,
        UdsError::PayloadTooLarge(m) => m@,
        UdsError::NotFound(m) => m@,
        UdsError::Conflict(m) => m@,
        _ => "internal server error"@,
    }
}

/// The stable machine-readable code of each failure.
pub open spec fn spec_code(e: UdsError) -> Seq<char> {
    match e {
        UdsError::BadRequest(_) => "bad_request"@,
        UdsError::Unauthorized => "unauthorized"@,
        UdsError::Forbidden => "forbidden"@,
        UdsError::FleetUnavailable => "fleet_confirmation_unavailable"@,
        UdsError::PayloadTooLarge(_) => "payload_too_large"@,
        UdsError::NotFound(_) => "not_found"@,
        UdsError::Conflict(_) => "conflict"@,
        _ => "internal_error"@,
    }
}

/// Whether an HTTP status is a server error (`500..=599`).
pub open spec fn is_server_error(status: u16) -> bool {
    500 <= status <= 599
}

impl UdsError {
    /// The HTTP status of this failure.
    pub fn status(&self) -> (r: u16)
        ensures
            r == spec_status(*self),
    {
        match self {
            UdsError::BadRequest(_) => 400,
            UdsError::Unauthorized => 401,
            UdsError::Forbidden => 403,
            UdsError::FleetUnavailable => 503,
            UdsError::PayloadTooLarge(_) => 413,
            UdsError::NotFound(_) => 404,
            UdsError::Conflict(_) => 409,
            _ => 500,
        }
    }

    /// The HTTP answer to this failure, identified by `error_id`.
    pub fn reply(&self, error_id: uuid::Uuid) -> (r: ErrorReply)
        ensures
            r.status == spec_status(*self),
            r.error@ == spec_public_message(*self),
            r.code@ == spec_code(*self),
            r.metadata.error_id == error_id,
            r.metadata.internal == is_server_error(r.status),
            r.metadata.internal ==> r.error@ == "internal server error"@ || r.error@
                == "fleet confirmation unavailable"@,
    {
        let status = self.status();
        let (error, code): (String, &'static str) = match self {
            UdsError::BadRequest(message) => (message.clone(), "bad_request"),
            UdsError::Unauthorized => (String::from_str("unauthorized"), "unauthorized"),
            UdsError::Forbidden => (String::from_str("forbidden"), "forbidden"),
            UdsError::FleetUnavailable => (
                String::from_str("fleet confirmation unavailable"),
                "fleet_confirmation_unavailable",
            ),
            UdsError::PayloadTooLarge(message) => (message.clone(), "payload_too_large"),
            UdsError::NotFound(message) => (message.clone(), "not_found"),
            UdsError::Conflict(message) => (message.clone(), "conflict"),
            _ => (String::from_str("internal server error"), "internal_error"),
        };
        let internal = 500 <= status && status <= 599;
        ErrorReply { status, error, code, metadata: ErrorResponseMetadata { error_id, internal } }
    }
}

/// Whether a failure is the server's own: configuration, storage, I/O,
/// JSON, TOML or version parsing.
pub open spec fn is_internal_failure(e: UdsError) -> bool {
    ||| e is Config
    ||| e is Storage
    ||| e is Io
    ||| e is Json
    ||| e is TomlDe
    ||| e is Semver
}

/// Whether a failure is the client's: a bad, unauthorized, forbidden,
/// too large, unknown or conflicting request.
pub open spec fn is_client_failure(e: UdsError) -> bool {
    ||| e is BadRequest
    ||| e is Unauthorized
    ||| e is Forbidden
    ||| e is PayloadTooLarge
    ||| e is NotFound
    ||| e is Conflict
}

/// Every failure of the server's own is answered 500 as internal, with the
/// fixed text `internal server error` and code `internal_error`; a client
/// failure, and only a client failure, gets a 4xx status and is not
/// internal; an unavailable fleet is a 503.
pub proof fn lemma_failures_are_classified(e: UdsError)
    ensures
        is_internal_failure(e) ==> spec_status(e) == 500 && is_server_error(spec_status(e))
            && spec_public_message(e) == "internal server error"@ && spec_code(e)
            == "internal_error"@,
        (400 <= spec_status(e) < 500) <==> is_client_failure(e),
        is_client_failure(e) ==> !is_server_error(spec_status(e)),
        e is FleetUnavailable ==> spec_status(e) == 503 && is_server_error(spec_status(e)),
        is_server_error(spec_status(e)) <==> (is_internal_failure(e) || e is FleetUnavailable),
        e matches UdsError::BadRequest(m) ==> spec_public_message(e) == m@ && spec_status(e) == 400,
        e matches UdsError::PayloadTooLarge(m) ==> spec_public_message(e) == m@ && spec_status(e) == 413,
        e matches UdsError::NotFound(m) ==> spec_public_message(e) == m@ && spec_status(e) == 404,
        e matches UdsError::Conflict(m) ==> spec_public_message(e) == m@ && spec_status(e) == 409,
        e is Unauthorized ==> spec_status(e) == 401,
        e is Forbidden ==> spec_status(e) == 403,
{
}

} // verus!
