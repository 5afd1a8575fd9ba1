//! The credential service and the authorization guard.
//!
//! Credentials are stateless signed bearer tokens carrying a principal
//! identifier and an expiry instant. The service issues them under a signing
//! secret injected at construction and validates them against the current
//! time; the guard extracts the credential from a request's authorization
//! header and collapses every failure to a single `Unauthenticated` answer so
//! that the expired-vs-malformed distinction never leaks to the caller.

use vstd::prelude::*;
use crate::errors::ApiError;

verus! {

/// The claims carried by a bearer credential: the principal it names (`sub`)
/// and the instant, in seconds since the Unix epoch, at which it expires.
#[derive(Clone, Copy, Debug, PartialEq, Eq, Structural)]
pub struct Claims {
    pub sub: u128,
    pub exp: u64,
}

/// The principal resolved from a validated credential, attached to the
/// request for downstream handlers.
#[derive(Clone, Copy, Debug, PartialEq, Eq, Structural)]
pub struct AuthenticatedUser {
    pub id: u128,
}

/// Why credential validation failed. This distinction stays inside the
/// service: the guard reports both kinds as `Unauthenticated`.
#[derive(Clone, Copy, Debug, PartialEq, Eq, Structural)]
pub enum AuthError {
    /// The current time is at or past the embedded expiry.
    Expired,
    /// The credential cannot be parsed or its signature does not verify.
    Malformed,
}

/// The signed bearer token that carries the claims `{sub, exp}` under the
/// given signing secret. The token is a function of these three values alone.
pub uninterp spec fn token_of(sub: u128, exp: u64, secret: Seq<u8>) -> Seq<char>;

/// Relies on jsonwebtoken::encode with HS256: the token is the base64 header
/// and claims joined with an HMAC signature, a deterministic function of the
/// claims and the secret. Signing always succeeds: the HMAC path returns no
/// error and serializing these claims cannot fail.
#[verifier::external_body]
fn jwt_encode(sub: u128, exp: u64, secret: &[u8]) -> (r: Option<String>)
    ensures
        r is Some,
        r matches Some(t) ==> t@ == token_of(sub, exp, secret@),
{
    let subject = uuid::Uuid::from_u128(sub).to_string();
    let mut claims = serde_json::Map::new();
    claims.insert(String::from("sub"), serde_json::Value::String(subject));
    claims.insert(String::from("exp"), serde_json::Value::from(exp));
    let header = jsonwebtoken::Header::new(jsonwebtoken::Algorithm::HS256);
    let key = jsonwebtoken::EncodingKey::from_secret(secret);
    jsonwebtoken::encode(&header, &serde_json::Value::Object(claims), &key).ok()
}

/// Relies on jsonwebtoken::decode with HS256: it verifies the signature
/// against the secret and hands back the embedded claims, so a token that
/// encode produced under the same secret decodes to the claims it was built
/// from. Expiry checking is disabled here and left to verified code.
#[verifier::external_body]
fn jwt_decode(token: &str, secret: &[u8]) -> (r: Option<Claims>)
    ensures
        forall|s: u128, e: u64|
            token@ == token_of(s, e, secret@) ==> r == Some(Claims { sub: s, exp: e }),
{
    let mut validation = jsonwebtoken::Validation::new(jsonwebtoken::Algorithm::HS256);
    validation.validate_exp = false;
    validation.required_spec_claims = std::collections::HashSet::new();
    let key = jsonwebtoken::DecodingKey::from_secret(secret);
    let data = jsonwebtoken::decode::<serde_json::Value>(token, &key, &validation).ok()?;
    let sub = data.claims.get("sub")?.as_str()?;
    let sub = uuid::Uuid::parse_str(sub).ok()?.as_u128();
    let exp = data.claims.get("exp")?.as_u64()?;
    Some(Claims { sub, exp })
}

/// Seconds in the thirty-day credential lifetime.
pub const TOKEN_LIFETIME_SECONDS: u64 = 30 * 86400;

/// Checks decoded claims against the clock: the pure decision part of
/// validation. Validity requires the current time to be strictly before the
/// embedded expiry.
pub fn validate_claims(claims: Claims, now: u64) -> (r: Result<AuthenticatedUser, AuthError>)
    ensures
        now < claims.exp ==> r == Ok::<AuthenticatedUser, AuthError>(
            AuthenticatedUser { id: claims.sub },
        ),
        now >= claims.exp ==> r == Err::<AuthenticatedUser, AuthError>(AuthError::Expired),
{
    if now < claims.exp {
        Ok(AuthenticatedUser { id: claims.sub })
    } else {
        Err(AuthError::Expired)
    }
}

/// Issues and validates bearer credentials under a process-wide signing
/// secret, injected once at construction.
pub struct CredentialService {
    secret: Vec<u8>,
}

impl CredentialService {
    /// The signing secret this service was constructed with.
    pub closed spec fn secret_key(&self) -> Seq<u8> {
        self.secret@
    }

    /// Builds a service around the given signing secret.
    pub fn new(secret: Vec<u8>) -> (s: Self)
        ensures
            s.secret_key() == secret@,
    {
        CredentialService { secret }
    }

    /// Issues a credential for the principal, expiring thirty days after
    /// `now`. Pure construction: always succeeds, deterministic given the
    /// signing secret.
    pub fn issue(&self, principal_id: u128, now: u64) -> (r: String)
        requires
            now + TOKEN_LIFETIME_SECONDS <= u64::MAX,
        ensures
            r@ == token_of(
                principal_id,
                (now + TOKEN_LIFETIME_SECONDS) as u64,
                self.secret_key(),
            ),
    {
        match jwt_encode(principal_id, now + TOKEN_LIFETIME_SECONDS, self.secret.as_slice()) {
            Some(token) => token,
            None => {
                proof {
                    assert(false);
                }
                String::new()
            },
        }
    }

    /// Validates a credential at time `now`: `Expired` when the current time
    /// is at or past the embedded expiry, `Malformed` when the token cannot
    /// be parsed or its signature does not verify under this service's
    /// secret.
    pub fn validate(&self, token: &str, now: u64) -> (r: Result<AuthenticatedUser, AuthError>)
        ensures
            forall|s: u128, e: u64|
                token@ == token_of(s, e, self.secret_key()) && now < e ==> r == Ok::<
                    AuthenticatedUser,
                    AuthError,
                >(AuthenticatedUser { id: s }),
            forall|s: u128, e: u64|
                token@ == token_of(s, e, self.secret_key()) && now >= e ==> r == Err::<
                    AuthenticatedUser,
                    AuthError,
                >(AuthError::Expired),
    {
        match jwt_decode(token, self.secret.as_slice()) {
            Some(claims) => validate_claims(claims, now),
            None => Err(AuthError::Malformed),
        }
    }
}

/// The authorization guard, run on every protected request: extract the
/// bearer credential from the authorization header and resolve the
/// principal. A missing header and every validation failure collapse to
/// `Unauthenticated`, so the caller never learns which kind it was.
pub fn auth(
    service: &CredentialService,
    authorization: Option<&str>,
    now: u64,
) -> (r: Result<AuthenticatedUser, ApiError>)
    ensures
        authorization is None ==> r == Err::<AuthenticatedUser, ApiError>(
            ApiError::Unauthenticated,
        ),
        r matches Err(e) ==> e == ApiError::Unauthenticated,
        forall|s: u128, e: u64|
            (authorization matches Some(h) && h@ == #[trigger] token_of(s, e, service.secret_key())
                && now < e) ==> r == Ok::<AuthenticatedUser, ApiError>(AuthenticatedUser { id: s }),
        forall|s: u128, e: u64|
            (authorization matches Some(h) && h@ == #[trigger] token_of(s, e, service.secret_key())
                && now >= e) ==> r == Err::<AuthenticatedUser, ApiError>(
                ApiError::Unauthenticated,
            ),
{
    match authorization {
        Some(header) => match service.validate(header, now) {
            Ok(user) => Ok(user),
            Err(_) => Err(ApiError::Unauthenticated),
        },
        None => Err(ApiError::Unauthenticated),
    }
}

} // verus!
