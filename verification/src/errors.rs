use vstd::prelude::*;

verus! {

/// The service-level error taxonomy. Each variant stands for one class of
/// failure that a handler converts to a response at the boundary; no variant
/// carries the underlying cause, so no internal detail can leak to a caller.
#[derive(Clone, Copy, Debug, PartialEq, Eq, Structural)]
pub enum MyError {
    /// The connection pool could not hand out a connection.
    PoolError,
    /// A database query failed.
    TokioPostgresError,
    /// Password hashing or verification failed; also the generic
    /// authentication failure on login, so that an unknown identifier and a
    /// wrong password are indistinguishable to the caller.
    ArgonError,
    /// Token signing failed.
    JWTError,
}

/// Why a bearer token was rejected. Expiry is kept distinguishable from a bad
/// signature for observability; both are reported to the caller as a generic
/// authentication failure.
#[derive(Clone, Copy, Debug, PartialEq, Eq, Structural)]
pub enum TokenError {
    /// The token does not have the expected shape.
    Malformed,
    /// The signature does not match the signing key.
    InvalidSignature,
    /// The token was well formed and correctly signed, but its lifetime is over.
    Expired,
}

} // verus!
