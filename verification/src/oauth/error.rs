//! Errors of the OAuth layer.  Transport failures reach this crate as plain
//! messages; the embedding application owns the transport error values
//! themselves.

use vstd::prelude::*;

verus! {

/// Why an OAuth operation failed.
#[derive(Debug)]
pub enum OauthError {
    /// A transport-level failure (DNS, TLS, reset, timeout), surfaced
    /// unchanged and never retried.
    RequestFailure(String),
    /// The provider answered with a non-2xx status; `problem` carries the
    /// raw response body.
    InvalidRequest { problem: String },
    /// A 2xx response failed schema parsing; `response` carries the raw
    /// body that could not be understood.
    InvalidResponse { response: String },
    /// The consumer credential is missing.
    InsufficientSecret,
    /// The user (or the consent channel) denied permission.
    PermissionDeniedUser,
}

} // verus!
