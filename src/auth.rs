//! The login flow: check the credentials against the store, and only then
//! issue a token.
use vstd::prelude::*;
use crate::store::{CredentialStore, credentials_match};
use crate::token::{get_jwt_for_user, issued_token, jwt_of, IssueError, TOKEN_TTL_SECS};

verus! {

/// The result of a login attempt. An unknown username and a wrong password
/// give the same `Invalid`, so a caller cannot tell them apart.
#[derive(Debug, PartialEq, Eq)]
pub enum LoginOutcome {
    /// The credentials matched; the token names the user.
    Valid(String),
    /// Unknown username or wrong password.
    Invalid,
}

/// What `login` returns for a store with contents `users`: no token on a
/// mismatch, the token of `username` at `now` on a match, and an error only
/// where that token's expiry time does not fit in a `u64`.
pub open spec fn login_result(
    users: Map<Seq<char>, Seq<char>>,
    username: Seq<char>,
    password: Seq<char>,
    now: u64,
    secret: Seq<u8>,
) -> Result<Option<Seq<char>>, IssueError> {
    if !credentials_match(users, username, password) {
        Ok(None)
    } else if now + TOKEN_TTL_SECS > u64::MAX {
        Err(IssueError::ClockOutOfRange)
    } else {
        Ok(Some(jwt_of(username, now, (now + TOKEN_TTL_SECS) as u64, secret)))
    }
}

/// A login result with the token as its characters.
pub open spec fn login_view(r: Result<LoginOutcome, IssueError>) -> Result<Option<Seq<char>>, IssueError> {
    match r {
        Ok(LoginOutcome::Valid(t)) => Ok(Some(t@)),
        Ok(LoginOutcome::Invalid) => Ok(None),
        Err(e) => Err(e),
    }
}

/// Logs `username` in with `password` at time `now`: a token signed with
/// `secret` when the password is exactly the registered one, `Invalid`
/// otherwise. An error means the token's expiry time is out of range, a
/// fault of the environment.
pub fn login(
    store: &CredentialStore,
    username: &String,
    password: &String,
    now: u64,
    secret: &[u8],
) -> (r: Result<LoginOutcome, IssueError>)
    requires
        store.wf(),
    ensures
        login_view(r) == login_result(store@, username@, password@, now, secret@),
        r matches Ok(LoginOutcome::Valid(t)) ==> issued_token(
            t@,
            username@,
            now,
            (now + TOKEN_TTL_SECS) as u64,
            secret@,
        ),
{
    if !store.check_credentials(username, password) {
        return Ok(LoginOutcome::Invalid);
    }
    match get_jwt_for_user(username, now, secret) {
        Ok(t) => Ok(LoginOutcome::Valid(t)),
        Err(e) => Err(e),
    }
}

} // verus!
