//! The ways a request fails, and the status each one is answered with.

use crate::auth::AuthError;
use vstd::prelude::*;

verus! {

#[derive(Clone, Copy, Debug, PartialEq, Eq, Structural)]
pub enum ApiError {
    /// The key names no place in the store.
    InvalidKey,
    /// A parameter of the request cannot be used.
    InvalidArgument,
    Unauthenticated,
    Forbidden,
    NotFound,
    /// What the request would create is there already.
    Conflict,
    /// A condition that the request set on the object's state does not hold.
    PreconditionFailed,
    PayloadTooLarge,
    /// The object has none of the bytes that the request asks for.
    RangeNotSatisfiable,
    /// The gateway cannot serve the request as it is configured.
    Misconfigured,
    /// The store or the gateway failed.
    Internal,
}

/// Why the store could not do what it was asked.
#[derive(Clone, Copy, Debug, PartialEq, Eq, Structural)]
pub enum StoreError {
    /// Nothing is stored at that place.
    NotFound,
    /// Any other failure.
    Other,
}

/// The HTTP status that answers each failure.
pub open spec fn status_of(e: ApiError) -> u16 {
    match e {
        ApiError::InvalidKey => 400,
        ApiError::InvalidArgument => 400,
        ApiError::Unauthenticated => 401,
        ApiError::Forbidden => 403,
        ApiError::NotFound => 404,
        ApiError::Conflict => 409,
        ApiError::PreconditionFailed => 412,
        ApiError::PayloadTooLarge => 413,
        ApiError::RangeNotSatisfiable => 416,
        ApiError::Misconfigured => 500,
        ApiError::Internal => 500,
    }
}

/// The failure of a request that the guard turned down.
pub open spec fn auth_failure(e: AuthError) -> ApiError {
    match e {
        AuthError::Unauthenticated => ApiError::Unauthenticated,
        AuthError::Forbidden => ApiError::Forbidden,
        AuthError::Misconfigured => ApiError::Misconfigured,
    }
}

/// The failure of a request whose object the store could not reach: a
/// missing object is not found, anything else is the store's fault.
pub open spec fn store_failure(e: StoreError) -> ApiError {
    match e {
        StoreError::NotFound => ApiError::NotFound,
        StoreError::Other => ApiError::Internal,
    }
}

impl ApiError {
    /// The HTTP status that answers this failure.
    pub fn status(&self) -> (r: u16)
        ensures
            r == status_of(*self),
            400 <= r < 600,
    {
        match self {
            ApiError::InvalidKey => 400,
            ApiError::InvalidArgument => 400,
            ApiError::Unauthenticated => 401,
            ApiError::Forbidden => 403,
            ApiError::NotFound => 404,
            ApiError::Conflict => 409,
            ApiError::PreconditionFailed => 412,
            ApiError::PayloadTooLarge => 413,
            ApiError::RangeNotSatisfiable => 416,
            ApiError::Misconfigured => 500,
            ApiError::Internal => 500,
        }
    }

    /// The failure of a request that the guard turned down.
    pub fn from_auth(e: AuthError) -> (r: ApiError)
        ensures
            r == auth_failure(e),
    {
        match e {
            AuthError::Unauthenticated => ApiError::Unauthenticated,
            AuthError::Forbidden => ApiError::Forbidden,
            AuthError::Misconfigured => ApiError::Misconfigured,
        }
    }

    /// The failure of a request whose object the store could not reach.
    pub fn from_store(e: StoreError) -> (r: ApiError)
        ensures
            r == store_failure(e),
    {
        match e {
            StoreError::NotFound => ApiError::NotFound,
            StoreError::Other => ApiError::Internal,
        }
    }
}

} // verus!
