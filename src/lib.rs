//! Authentication core: an in-memory credential store and signed,
//! time-bounded identity tokens.
//!
//! Passwords are stored and compared as given, byte for byte; hashing them
//! is left to a hardened deployment.
pub mod auth;
pub mod laws;
pub mod store;
pub mod token;

pub use auth::{login, LoginOutcome};
pub use store::{CredentialRecord, CredentialStore, RegisterOutcome};
pub use token::{
    check_claims, claims_for, find_signature_dot, get_jwt_for_user, verify_token, Claims,
    IssueError, TokenError, JWT_HEADER_SEGMENT, TOKEN_TTL_SECS,
};
