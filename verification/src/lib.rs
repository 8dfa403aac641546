//! An object store behind an HTTP gateway, as the decisions it makes: which
//! keys name an object, who may pass, which bytes a range asks for, and
//! what each request is answered with. Reading the store and the network
//! is left to the caller.

use vstd::prelude::*;

pub mod auth;
pub mod consts;
pub mod decimal;
pub mod error;
pub mod order;
pub mod routes;
pub mod text;
pub mod token;

verus! {

/// What every request handler shares.
#[derive(Clone, Debug)]
pub struct AppState {
    /// The directory under which all objects live.
    pub root: String,
}

} // verus!
