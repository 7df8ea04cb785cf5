//! Identity claims and signed tokens: issuing a token for a user, and
//! deciding whether a presented token is valid at a given time.
use vstd::prelude::*;
use vstd::string::*;

verus! {

/// How long an issued token stays valid, in seconds.
pub const TOKEN_TTL_SECS: u64 = 60;

/// The payload of a token: who it names and the window in which it holds.
pub struct Claims {
    pub sub: String,
    pub iat: u64,
    pub exp: u64,
}

/// The first segment of every issued token: base64url of the header
/// `{"typ":"JWT","alg":"HS256"}`.
pub const JWT_HEADER_SEGMENT: &'static str = "eyJ0eXAiOiJKV1QiLCJhbGciOiJIUzI1NiJ9";

/// Why no token could be issued: a fault of the environment, not of the
/// request.
#[derive(Clone, Copy, Debug, PartialEq, Eq, Structural)]
pub enum IssueError {
    /// `now + TOKEN_TTL_SECS` does not fit in a `u64`.
    ClockOutOfRange,
}

/// Why a presented token was rejected.
#[derive(Clone, Copy, Debug, PartialEq, Eq, Structural)]
pub enum TokenError {
    /// Not three dot-separated segments, or a payload without a string `sub`
    /// and integer `iat` and `exp`.
    Malformed,
    /// The signature segment is not the signature of the rest.
    BadSignature,
    /// The current time is past `exp`.
    Expired,
}

#[verifier::external_type_specification]
#[verifier::external_body]
pub struct ExJwtError(jsonwebtoken::errors::Error);

/// The token that the encoder produces for these claims under this secret.
pub uninterp spec fn jwt_of(sub: Seq<char>, iat: u64, exp: u64, secret: Seq<u8>) -> Seq<char>;

/// The base64url HMAC-SHA256 signature of `message` under `secret`.
pub uninterp spec fn hs256_signature(message: Seq<char>, secret: Seq<u8>) -> Seq<char>;

/// The `sub`, `iat` and `exp` fields of a token's payload segment, each
/// present only with the right JSON type, and the number of fields the
/// payload has; `None` where the token does not have three segments, its
/// header segment is not a JWT header, or its payload cannot be
/// base64url-decoded or read as a JSON object with at most one of each of
/// the registered claims.
pub uninterp spec fn payload_fields(token: Seq<char>) -> Option<(Option<Seq<char>>, Option<u64>, Option<u64>, nat)>;

/// An optional string as its characters.
pub open spec fn opt_view(s: Option<String>) -> Option<Seq<char>> {
    match s {
        Some(x) => Some(x@),
        None => None,
    }
}

/// `token` has exactly three dot-separated segments, the first is the
/// HS256 JWT header, the last is the signature under `secret` of the two
/// before, and the payload holds `sub`, `iat` and `exp` and nothing else.
pub open spec fn issued_token(token: Seq<char>, sub: Seq<char>, iat: u64, exp: u64, secret: Seq<u8>) -> bool {
    &&& signature_dot(token) matches Some(k) && token.subrange(k + 1, token.len() as int)
        == hs256_signature(token.subrange(0, k), secret)
    &&& token.len() > JWT_HEADER_SEGMENT@.len()
    &&& token.subrange(0, JWT_HEADER_SEGMENT@.len() as int) == JWT_HEADER_SEGMENT@
    &&& token[JWT_HEADER_SEGMENT@.len() as int] == '.'
    &&& payload_fields(token) == Some((Some(sub), Some(iat), Some(exp), 3nat))
}

/// Relies on jsonwebtoken::encode with the default header (HS256) and an
/// HMAC key: the token depends on the claims and the secret alone. It is
/// base64url(header) '.' base64url(JSON claims) '.' crypto::sign of the part
/// before the last dot; base64url output holds no '.', the signature is the
/// one crypto::verify computes again, and jsonwebtoken::decode reads the
/// three claims back from the payload. It does not fail here: an HMAC key
/// matches the HS256 header, a header and a JSON object with string keys
/// always serialise, and HS256 signing returns `Ok`.
#[verifier::external_body]
fn encode_token(sub: &String, iat: u64, exp: u64, secret: &[u8]) -> (t: String)
    ensures
        t@ == jwt_of(sub@, iat, exp, secret@),
        issued_token(t@, sub@, iat, exp, secret@),
{
    let mut claims = serde_json::Map::new();
    claims.insert("sub".to_string(), serde_json::Value::from(sub.as_str()));
    claims.insert("iat".to_string(), serde_json::Value::from(iat));
    claims.insert("exp".to_string(), serde_json::Value::from(exp));
    let key = jsonwebtoken::EncodingKey::from_secret(secret);
    jsonwebtoken::encode(&jsonwebtoken::Header::default(), &serde_json::Value::Object(claims), &key)
        .unwrap_or_default()
}

/// Relies on jsonwebtoken::crypto::verify with HS256: it signs `message`
/// again with `secret` and compares the result with `signature`, and for the
/// HMAC algorithms it returns no error.
#[verifier::external_body]
fn signature_matches(signature: &str, message: &str, secret: &[u8]) -> (r: bool)
    ensures
        r == (signature@ == hs256_signature(message@, secret@)),
{
    let key = jsonwebtoken::DecodingKey::from_secret(secret);
    jsonwebtoken::crypto::verify(signature, message.as_bytes(), &key, jsonwebtoken::Algorithm::HS256)
        .unwrap_or(false)
}

/// Relies on jsonwebtoken::decode with signature, expiry and audience checks
/// and required claims switched off: it splits the token, base64url-decodes
/// the payload and reads it as a JSON object, of which the three fields are
/// taken, with the number of fields.
#[verifier::external_body]
fn read_payload(token: &str) -> (r: Result<(Option<String>, Option<u64>, Option<u64>, usize), jsonwebtoken::errors::Error>)
    ensures
        match r {
            Ok(f) => payload_fields(token@) == Some((opt_view(f.0), f.1, f.2, f.3 as nat)),
            Err(_) => payload_fields(token@) is None,
        },
{
    let mut v = jsonwebtoken::Validation::new(jsonwebtoken::Algorithm::HS256);
    v.insecure_disable_signature_validation();
    v.validate_exp = false;
    v.validate_aud = false;
    v.required_spec_claims.clear();
    let key = jsonwebtoken::DecodingKey::from_secret(&[]);
    let m = jsonwebtoken::decode::<std::collections::HashMap<String, serde_json::Value>>(token, &key, &v)?.claims;
    let sub = m.get("sub").and_then(serde_json::Value::as_str).map(String::from);
    let iat = m.get("iat").and_then(serde_json::Value::as_u64);
    Ok((sub, iat, m.get("exp").and_then(serde_json::Value::as_u64), m.len()))
}

/// The claims of a token issued to `username` at `now`, if its expiry time
/// is representable.
pub fn claims_for(username: &String, now: u64) -> (r: Option<Claims>)
    ensures
        match r {
            Some(c) => now + TOKEN_TTL_SECS <= u64::MAX && c.sub@ == username@ && c.iat == now
                && c.exp == now + TOKEN_TTL_SECS,
            None => now + TOKEN_TTL_SECS > u64::MAX,
        },
{
    match now.checked_add(TOKEN_TTL_SECS) {
        Some(exp) => Some(Claims { sub: username.clone(), iat: now, exp }),
        None => None,
    }
}

/// Issues a signed token naming `username`, valid from `now` for
/// `TOKEN_TTL_SECS` seconds.
pub fn get_jwt_for_user(username: &String, now: u64, secret: &[u8]) -> (r: Result<String, IssueError>)
    ensures
        now + TOKEN_TTL_SECS > u64::MAX ==> r == Err::<String, IssueError>(IssueError::ClockOutOfRange),
        now + TOKEN_TTL_SECS <= u64::MAX ==> (r matches Ok(t) && t@ == jwt_of(
            username@,
            now,
            (now + TOKEN_TTL_SECS) as u64,
            secret@,
        ) && issued_token(t@, username@, now, (now + TOKEN_TTL_SECS) as u64, secret@)),
{
    match claims_for(username, now) {
        None => Err(IssueError::ClockOutOfRange),
        Some(c) => Ok(encode_token(&c.sub, c.iat, c.exp, secret)),
    }
}

/// The number of '.' characters in `s`.
pub open spec fn count_dots(s: Seq<char>) -> nat
    decreases s.len(),
{
    if s.len() == 0 {
        0
    } else {
        count_dots(s.drop_last()) + if s.last() == '.' { 1nat } else { 0nat }
    }
}

/// The position of the last '.' in `s`, or -1.
pub open spec fn last_dot(s: Seq<char>) -> int
    decreases s.len(),
{
    if s.len() == 0 {
        -1
    } else if s.last() == '.' {
        s.len() - 1
    } else {
        last_dot(s.drop_last())
    }
}

pub(crate) proof fn lemma_last_dot(s: Seq<char>)
    ensures
        -1 <= last_dot(s) < s.len(),
        last_dot(s) >= 0 ==> s[last_dot(s)] == '.',
        (count_dots(s) > 0) == (last_dot(s) >= 0),
        forall|j: int| last_dot(s) < j < s.len() ==> s[j] != '.',
    decreases s.len(),
{
    if s.len() > 0 {
        let t = s.drop_last();
        lemma_last_dot(t);
        assert forall|j: int| last_dot(s) < j < s.len() implies s[j] != '.' by {
            if j < s.len() - 1 {
                assert(s[j] == t[j]);
            }
        }
    }
}

/// For a token of exactly three dot-separated segments, the position of the
/// dot before the signature segment.
pub open spec fn signature_dot(token: Seq<char>) -> Option<int> {
    if count_dots(token) == 2 {
        Some(last_dot(token))
    } else {
        None
    }
}

/// The verdict on a token's payload fields at time `now`.
pub open spec fn claims_verdict(
    fields: Option<(Option<Seq<char>>, Option<u64>, Option<u64>, nat)>,
    now: u64,
) -> Result<Seq<char>, TokenError> {
    match fields {
        Some((Some(sub), Some(_iat), Some(exp), _)) => if now > exp {
            Err(TokenError::Expired)
        } else {
            Ok(sub)
        },
        _ => Err(TokenError::Malformed),
    }
}

/// The verdict on `token` at time `now` under `secret`: its shape first,
/// then its signature, then its payload and expiry.
pub open spec fn token_verdict(token: Seq<char>, now: u64, secret: Seq<u8>) -> Result<Seq<char>, TokenError> {
    match signature_dot(token) {
        None => Err(TokenError::Malformed),
        Some(k) => if token.subrange(k + 1, token.len() as int) != hs256_signature(token.subrange(0, k), secret) {
            Err(TokenError::BadSignature)
        } else {
            claims_verdict(payload_fields(token), now)
        },
    }
}

/// A verdict with the subject as its characters.
pub open spec fn verdict_view(r: Result<String, TokenError>) -> Result<Seq<char>, TokenError> {
    match r {
        Ok(s) => Ok(s@),
        Err(e) => Err(e),
    }
}

/// Payload fields with the subject as its characters.
pub open spec fn fields_view(
    fields: Option<(Option<String>, Option<u64>, Option<u64>, usize)>,
) -> Option<(Option<Seq<char>>, Option<u64>, Option<u64>, nat)> {
    match fields {
        Some(f) => Some((opt_view(f.0), f.1, f.2, f.3 as nat)),
        None => None,
    }
}

/// Decides on the payload fields of a token, as read from it, at `now`.
pub fn check_claims(fields: Option<(Option<String>, Option<u64>, Option<u64>, usize)>, now: u64) -> (r: Result<String, TokenError>)
    ensures
        verdict_view(r) == claims_verdict(fields_view(fields), now),
{
    match fields {
        Some((Some(sub), Some(_iat), Some(exp), _)) => if now > exp {
            Err(TokenError::Expired)
        } else {
            Ok(sub)
        },
        _ => Err(TokenError::Malformed),
    }
}

/// The position of the dot before the signature segment, where the token
/// has exactly two dots.
pub fn find_signature_dot(token: &str) -> (r: Option<usize>)
    ensures
        match r {
            Some(k) => signature_dot(token@) == Some(k as int) && k < token@.len(),
            None => signature_dot(token@) is None,
        },
{
    let n = token.unicode_len();
    let mut i: usize = 0;
    let mut dots: usize = 0;
    let mut last: Option<usize> = None;
    while i < n
        invariant
            n == token@.len(),
            i <= n,
            dots <= i,
            (dots > 0) == (last is Some),
            last matches Some(k) ==> k < i,
            dots == count_dots(token@.subrange(0, i as int)),
            match last {
                Some(k) => last_dot(token@.subrange(0, i as int)) == k as int,
                None => last_dot(token@.subrange(0, i as int)) == -1,
            },
        decreases n - i,
    {
        let c = token.get_char(i);
        proof {
            assert(token@.subrange(0, i + 1).drop_last() =~= token@.subrange(0, i as int));
        }
        if c == '.' {
            dots = dots + 1;
            last = Some(i);
        }
        i = i + 1;
    }
    proof {
        assert(token@.subrange(0, n as int) =~= token@);
        lemma_last_dot(token@);
    }
    if dots == 2 {
        match last {
            Some(k) => Some(k),
            None => None,
        }
    } else {
        None
    }
}

/// Checks `token` at time `now` against `secret`; on success returns the
/// subject it names.
pub fn verify_token(token: &str, now: u64, secret: &[u8]) -> (r: Result<String, TokenError>)
    ensures
        verdict_view(r) == token_verdict(token@, now, secret@),
{
    match find_signature_dot(token) {
        None => Err(TokenError::Malformed),
        Some(k) => {
            let n = token.unicode_len();
            let message = token.substring_char(0, k);
            let signature = token.substring_char(k + 1, n);
            if !signature_matches(signature, message, secret) {
                Err(TokenError::BadSignature)
            } else {
                let fields = match read_payload(token) {
                    Ok(f) => Some(f),
                    Err(_) => None,
                };
                check_claims(fields, now)
            }
        },
    }
}

} // verus!
