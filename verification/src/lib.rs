//! A minimal user-account service's core, with its behaviour verified:
//! salted password hashing and verification, issue and validation of
//! signed, time-limited bearer tokens, and the handler decisions around
//! them — login, registration, and search-query construction.
//!
//! The memory-hard hash and the HMAC signature come from outside crates
//! through a few trusted declarations; everything around them — the token
//! format with its base64url and payload codecs, the validation rules, the
//! error taxonomy, the query builder — is stated in contracts and proved.

use vstd::prelude::*;

mod base64url;
mod digits;
mod errors;
mod payload;
mod security;
mod service;
mod token;
mod types;

pub use errors::{MyError, TokenError};
pub use security::{argon2_matches, check_password, hash_password};
pub use service::{
    build_search_query, login, register, search_clause, search_sql, search_sql_head, SearchQuery,
};
pub use token::{
    generate_token, hs256_sig, lemma_tampered_signature_rejected, lemma_validate_canonical,
    signing_input, token_bytes, validate_spec, validate_token, TOKEN_LIFETIME_SECS,
};
pub use types::{Claims, Date, LoginRequest, RegisterRequest, RegisterResponse};

verus! {

} // verus!
