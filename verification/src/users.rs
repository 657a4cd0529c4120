//! User-facing request data. Credential handling, password hashing and
//! token issuing are infrastructure around the engine, not part of it; the
//! engine only defines the shapes those flows exchange.

use vstd::prelude::*;

verus! {

/// What a signup submits after request parsing.
pub struct SignupInput {
    pub email: String,
    pub username: String,
    pub password: String,
}

/// The raw signup request body.
pub struct SignupRequest {
    pub username: String,
    pub email: String,
    pub avatar: String,
    pub password: String,
}

/// The raw login request body.
pub struct LoginRequest {
    pub email: String,
    pub password: String,
}

} // verus!
