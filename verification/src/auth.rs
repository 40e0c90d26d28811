//! Token service and authorization guard.
//!
//! A bearer token is a signed, time-bound identity assertion: claims
//! {subject, issued-at, expiry} signed with a server-held symmetric
//! secret. `generate_token` issues one, `verify_token` checks signature
//! and expiry against an explicit current time, and `authorize` is the
//! guard every protected endpoint runs: it classifies the raw
//! `Authorization` header bytes and maps a good bearer token to the
//! authenticated user id. Password hashing for the account handlers
//! lives here too.

use vstd::prelude::*;

use crate::config::Config;
use crate::errors::ServiceError;

verus! {

/// The decoded payload of a token: subject (the user id in its canonical
/// text form), expiry and issued-at in seconds since the Unix epoch.
#[derive(Debug)]
pub struct Claims {
    pub sub: String,
    pub exp: usize,
    pub iat: usize,
}

/// The token jsonwebtoken produces for these claims under this secret.
/// Signing with the default HS256 header is a deterministic function of
/// the secret and the claims.
pub uninterp spec fn token_of(secret: Seq<char>, sub: Seq<char>, iat: usize, exp: usize) -> Seq<char>;

/// The canonical hyphenated text form a UUID value renders to.
pub uninterp spec fn uuid_str(id: u128) -> Seq<char>;

/// The 128-bit value a string denotes as a UUID, if it is well formed.
pub uninterp spec fn parsed_uuid(s: Seq<char>) -> Option<u128>;

/// What bcrypt's password check reports for this pair: `Some(accepted)`
/// when the stored hash parses as a bcrypt hash with an admissible cost,
/// `None` when it does not — whether it parses depends on the hash
/// alone. A function of the pair alone.
pub uninterp spec fn bcrypt_check(password: Seq<char>, hash: Seq<char>) -> Option<bool>;

/// The claims a token carries, if its HS256 signature verifies under
/// this secret and its payload holds {sub, iat, exp}: the (subject,
/// issued-at, expiry) triple. `None` for every token whose signature or
/// shape fails — in particular for every token not signed with this
/// secret. A function of the pair alone.
pub uninterp spec fn verified_claims(secret: Seq<char>, token: Seq<char>) -> Option<
    (Seq<char>, usize, usize),
>;

/// Relies on jsonwebtoken::encode with the default (HS256) header and a
/// plain-secret key: the token is the encoding of exactly these claims
/// under this secret. For this configuration encoding cannot fail —
/// HMAC accepts any key length and the claims object always serializes
/// — so the fallback arm below is unreachable.
#[verifier::external_body]
fn encode_claims(secret: &str, claims: &Claims) -> (r: String)
    ensures
        r@ == token_of(secret@, claims.sub@, claims.iat, claims.exp),
{
    let mut m = serde_json::Map::new();
    m.insert("sub".to_string(), serde_json::Value::String(claims.sub.clone()));
    m.insert("iat".to_string(), serde_json::Value::from(claims.iat as u64));
    m.insert("exp".to_string(), serde_json::Value::from(claims.exp as u64));
    let key = jsonwebtoken::EncodingKey::from_secret(secret.as_bytes());
    match jsonwebtoken::encode(&jsonwebtoken::Header::default(), &serde_json::Value::Object(m), &key) {
        Ok(t) => t,
        Err(_) => String::new(),
    }
}

/// Relies on jsonwebtoken::decode with HS256 and expiry checking turned
/// off (expiry is checked separately, against an explicit time): the
/// call succeeds exactly on the tokens whose signature verifies under
/// this secret and whose payload carries {sub, iat, exp}, and returns
/// those claims — so a token jsonwebtoken::encode produced from such
/// claims under the same secret decodes back to exactly them, and a
/// token signed with any other key is rejected.
#[verifier::external_body]
fn decode_claims(token: &str, secret: &str) -> (r: Result<Claims, ()>)
    ensures
        r matches Ok(c) ==> verified_claims(secret@, token@) == Some((c.sub@, c.iat, c.exp)),
        r matches Err(_) ==> verified_claims(secret@, token@) is None,
        r matches Err(_) ==> forall|sub: Seq<char>, iat: usize, exp: usize|
            token@ != #[trigger] token_of(secret@, sub, iat, exp),
        r matches Ok(c) ==> forall|sub: Seq<char>, iat: usize, exp: usize|
            token@ == #[trigger] token_of(secret@, sub, iat, exp) ==> (c.sub@ == sub && c.iat
                == iat && c.exp == exp),
{
    let mut v = jsonwebtoken::Validation::new(jsonwebtoken::Algorithm::HS256);
    v.validate_exp = false;
    v.required_spec_claims = std::collections::HashSet::new();
    let key = jsonwebtoken::DecodingKey::from_secret(secret.as_bytes());
    let c = match jsonwebtoken::decode::<serde_json::Value>(token, &key, &v) {
        Ok(d) => d.claims,
        Err(_) => return Err(()),
    };
    match (c.get("sub"), c.get("iat").and_then(serde_json::Value::as_u64), c.get("exp").and_then(serde_json::Value::as_u64)) {
        (Some(serde_json::Value::String(s)), Some(i), Some(e)) =>
            Ok(Claims { sub: s.clone(), iat: i as usize, exp: e as usize }),
        _ => Err(()),
    }
}

/// Relies on uuid::Uuid::parse_str: whether a string is a well-formed
/// UUID, and which value it denotes, depend on the string alone.
#[verifier::external_body]
pub(crate) fn parse_uuid_str(s: &str) -> (r: Option<u128>)
    ensures
        r == parsed_uuid(s@),
{
    match uuid::Uuid::parse_str(s) {
        Ok(u) => Some(u.as_u128()),
        Err(_) => None,
    }
}

/// Relies on uuid::Uuid::from_u128 and its Display impl: the canonical
/// hyphenated form is deterministic and parses back to the same value.
#[verifier::external_body]
fn uuid_to_string(id: u128) -> (r: String)
    ensures
        r@ == uuid_str(id),
        parsed_uuid(r@) == Some(id),
{
    uuid::Uuid::from_u128(id).to_string()
}

/// Relies on uuid::Uuid::new_v4: a freshly drawn random identifier.
/// Nothing is assumed of its value. The call panics only if the
/// operating system's randomness source fails — an environment fault,
/// not a function of any input.
#[verifier::external_body]
pub(crate) fn new_user_id() -> u128 {
    uuid::Uuid::new_v4().as_u128()
}

/// Relies on String::from_utf8: bytes below 128 are valid UTF-8 and
/// decode to the characters with the same code points.
#[verifier::external_body]
fn ascii_to_string(bytes: Vec<u8>) -> (r: String)
    requires
        forall|i: int| 0 <= i < bytes@.len() ==> bytes@[i] < 128,
    ensures
        r@ == ascii_chars(bytes@),
{
    match String::from_utf8(bytes) {
        Ok(s) => s,
        Err(_) => String::new(),
    }
}

/// Relies on bcrypt::hash with cost 10: a fresh salted hash in bcrypt's
/// own format, which bcrypt::verify therefore parses under any
/// password, and accepts the same password against. The salt is random,
/// so nothing more is claimed of the hash's value.
#[verifier::external_body]
pub fn hash_password(password: &str) -> (r: Result<String, ()>)
    ensures
        r matches Ok(h) ==> bcrypt_check(password@, h@) == Some(true),
        r matches Ok(h) ==> forall|p: Seq<char>| (#[trigger] bcrypt_check(p, h@)) is Some,
{
    match bcrypt::hash(password, 10) {
        Ok(h) => Ok(h),
        Err(_) => Err(()),
    }
}

/// Relies on bcrypt::verify: whether a password matches a stored hash is
/// a function of the pair alone, and the call errs exactly when the
/// hash does not parse as a bcrypt hash — a condition of the hash
/// alone, which `bcrypt_check`'s `None` stands for.
#[verifier::external_body]
pub fn verify_password(password: &str, hash: &str) -> (r: Result<bool, ()>)
    ensures
        r matches Ok(b) ==> bcrypt_check(password@, hash@) == Some(b),
        r matches Err(_) ==> bcrypt_check(password@, hash@) is None,
{
    match bcrypt::verify(password, hash) {
        Ok(b) => Ok(b),
        Err(_) => Err(()),
    }
}

/// ASCII bytes read as characters.
pub open spec fn ascii_chars(s: Seq<u8>) -> Seq<char> {
    s.map(|i: int, b: u8| b as char)
}

/// A header is valid text when every byte is visible ASCII or space.
pub open spec fn is_visible_ascii(s: Seq<u8>) -> bool {
    forall|i: int| 0 <= i < s.len() ==> 32 <= #[trigger] s[i] <= 126
}

/// The bytes of the literal scheme prefix `"Bearer "`.
pub open spec fn bearer_prefix() -> Seq<u8> {
    seq![66u8, 101u8, 97u8, 114u8, 101u8, 114u8, 32u8]
}

pub open spec fn has_bearer_prefix(s: Seq<u8>) -> bool {
    s.len() >= 7 && s.take(7) == bearer_prefix()
}

/// The token part of a bearer header: everything after the prefix.
pub open spec fn bearer_token(s: Seq<u8>) -> Seq<char> {
    ascii_chars(s.skip(7))
}

/// Issue a token for a user: claims are {subject = the user's id in
/// canonical text form, issued-at = now, expiry = now + configured TTL},
/// signed with the configured secret. HS256 signing with a plain secret
/// cannot fail, so issuance always succeeds; the `Result` shape is kept
/// for callers that treat issuance as fallible.
pub fn generate_token(user_id: u128, config: &Config, now: usize) -> (r: Result<String, ServiceError>)
    requires
        now + config.jwt_expires_in <= usize::MAX,
    ensures
        r matches Ok(t) && t@ == token_of(
            config.jwt_secret@,
            uuid_str(user_id),
            now,
            (now + config.jwt_expires_in) as usize,
        ),
{
    let expires_at: usize = now + config.jwt_expires_in as usize;
    let claims = Claims { sub: uuid_to_string(user_id), exp: expires_at, iat: now };
    Ok(encode_claims(config.jwt_secret.as_str(), &claims))
}

/// Validate a token against the configured secret and the given current
/// time: a pure function of (token, secret, time).
///
/// The clauses carry the token-service laws. The `verified_claims`
/// clause speaks of every token: only a token whose HS256 signature
/// verifies under the configured secret can be accepted, it is accepted
/// exactly when its own expiry lies after `now`, and the claims handed
/// back are the token's own — so any token past its expiry instant,
/// and any token signed with another key, fails with `InvalidToken`.
/// The `token_of` clause instantiates this for issued tokens: validate
/// immediately after issue succeeds and returns the same subject.
pub fn verify_token(token: &str, config: &Config, now: i64) -> (r: Result<Claims, ServiceError>)
    ensures
        r matches Ok(c) ==> c.exp as int > now as int,
        r matches Err(e) ==> e == ServiceError::InvalidToken,
        (match verified_claims(config.jwt_secret@, token@) {
            Some(t) => {
                &&& (t.2 as int > now as int ==> (r matches Ok(c) && c.sub@ == t.0 && c.iat == t.1
                    && c.exp == t.2))
                &&& (t.2 as int <= now as int ==> r == Err::<Claims, ServiceError>(
                    ServiceError::InvalidToken,
                ))
            },
            None => r == Err::<Claims, ServiceError>(ServiceError::InvalidToken),
        }),
        forall|sub: Seq<char>, iat: usize, exp: usize|
            token@ == #[trigger] token_of(config.jwt_secret@, sub, iat, exp) ==> (if exp as int
                > now as int {
                r matches Ok(c) && c.sub@ == sub && c.iat == iat && c.exp == exp
            } else {
                r == Err::<Claims, ServiceError>(ServiceError::InvalidToken)
            }),
{
    match decode_claims(token, config.jwt_secret.as_str()) {
        Ok(c) => {
            if (c.exp as i128) > (now as i128) {
                Ok(c)
            } else {
                Err(ServiceError::InvalidToken)
            }
        },
        Err(_) => Err(ServiceError::InvalidToken),
    }
}

/// What the guard owes for a well-formed bearer header carrying this
/// token text: a token is accepted only if its signature verifies under
/// the secret and its own expiry lies after `now`, in which case its
/// subject decides — a well-formed subject authenticates that user, a
/// malformed one is the server-side `CorruptClaims`; every other token
/// fails as `InvalidToken`.
pub open spec fn guard_token_outcome(
    tok: Seq<char>,
    secret: Seq<char>,
    now: i64,
    r: Result<u128, ServiceError>,
) -> bool {
    &&& (match verified_claims(secret, tok) {
        Some(t) => {
            &&& (t.2 as int > now as int ==> (match parsed_uuid(t.0) {
                Some(uid) => r == Ok::<u128, ServiceError>(uid),
                None => r == Err::<u128, ServiceError>(ServiceError::CorruptClaims),
            }))
            &&& (t.2 as int <= now as int ==> r == Err::<u128, ServiceError>(
                ServiceError::InvalidToken,
            ))
        },
        None => r == Err::<u128, ServiceError>(ServiceError::InvalidToken),
    })
    &&& (forall|sub: Seq<char>, iat: usize, exp: usize|
        tok == #[trigger] token_of(secret, sub, iat, exp) ==> (if exp as int > now as int {
            match parsed_uuid(sub) {
                Some(uid) => r == Ok::<u128, ServiceError>(uid),
                None => r == Err::<u128, ServiceError>(ServiceError::CorruptClaims),
            }
        } else {
            r == Err::<u128, ServiceError>(ServiceError::InvalidToken)
        }))
    &&& (r matches Err(e) ==> e == ServiceError::InvalidToken || e == ServiceError::CorruptClaims)
}

/// The spec-level view of an optional raw header.
pub open spec fn opt_view(header: Option<&Vec<u8>>) -> Option<Seq<u8>> {
    match header {
        Some(h) => Some(h@),
        None => None,
    }
}

/// How a protected operation's outcome relates to its `Authorization`
/// header: the guard's classification decides, and only an authenticated
/// user reaches the operation itself. `fail(e)` states what holds when
/// the guard rejects with `e` (at least: the error is returned and no
/// store was touched); `ok(uid)` states what the operation does for the
/// authenticated user `uid`.
pub open spec fn guarded_outcome(
    header: Option<Seq<u8>>,
    secret: Seq<char>,
    now: i64,
    fail: spec_fn(ServiceError) -> bool,
    ok: spec_fn(u128) -> bool,
) -> bool {
    &&& (header is None ==> fail(ServiceError::MissingAuth))
    &&& (header matches Some(h) ==> {
        &&& (!is_visible_ascii(h) ==> fail(ServiceError::MalformedAuth))
        &&& (is_visible_ascii(h) && !has_bearer_prefix(h) ==> fail(ServiceError::BadScheme))
        &&& (is_visible_ascii(h) && has_bearer_prefix(h) ==> (match verified_claims(
            secret,
            bearer_token(h),
        ) {
            Some(t) => {
                &&& (t.2 as int > now as int ==> (match parsed_uuid(t.0) {
                    Some(uid) => ok(uid),
                    None => fail(ServiceError::CorruptClaims),
                }))
                &&& (t.2 as int <= now as int ==> fail(ServiceError::InvalidToken))
            },
            None => fail(ServiceError::InvalidToken),
        }))
        &&& (is_visible_ascii(h) && has_bearer_prefix(h) ==> forall|
            sub: Seq<char>,
            iat: usize,
            exp: usize,
        |
            bearer_token(h) == #[trigger] token_of(secret, sub, iat, exp) ==> (if exp as int
                > now as int {
                match parsed_uuid(sub) {
                    Some(uid) => ok(uid),
                    None => fail(ServiceError::CorruptClaims),
                }
            } else {
                fail(ServiceError::InvalidToken)
            }))
    })
}

/// The authorization guard, invoked identically by every protected
/// endpoint. Classifies the raw `Authorization` header bytes:
/// absent → `MissingAuth`; not valid text → `MalformedAuth`; not the
/// `Bearer` scheme → `BadScheme`; then the token is validated and its
/// subject parsed as a user id, a parse failure being the server-side
/// `CorruptClaims`. A pure function of header, secret and time — it
/// touches no store.
pub fn authorize(header: Option<&Vec<u8>>, config: &Config, now: i64) -> (r: Result<
    u128,
    ServiceError,
>)
    ensures
        header is None ==> r == Err::<u128, ServiceError>(ServiceError::MissingAuth),
        header matches Some(h) ==> ({
            &&& !is_visible_ascii(h@) ==> r == Err::<u128, ServiceError>(
                ServiceError::MalformedAuth,
            )
            &&& is_visible_ascii(h@) && !has_bearer_prefix(h@) ==> r == Err::<u128, ServiceError>(
                ServiceError::BadScheme,
            )
            &&& is_visible_ascii(h@) && has_bearer_prefix(h@) ==> guard_token_outcome(
                bearer_token(h@),
                config.jwt_secret@,
                now,
                r,
            )
        }),
        r matches Err(e) ==> e != ServiceError::BadRequest && e != ServiceError::NotFound
            && e != ServiceError::StorageError,
{
    let h = match header {
        Some(h) => h,
        None => {
            return Err(ServiceError::MissingAuth);
        },
    };
    let n = h.len();
    let mut i: usize = 0;
    while i < n
        invariant
            header == Some(h),
            n == h.len(),
            i <= n,
            forall|j: int| 0 <= j < i ==> 32 <= #[trigger] h@[j] <= 126,
        decreases n - i,
    {
        let b = h[i];
        if b < 32 || b > 126 {
            return Err(ServiceError::MalformedAuth);
        }
        i += 1;
    }
    if n < 7 {
        return Err(ServiceError::BadScheme);
    }
    if !(h[0] == 66 && h[1] == 101 && h[2] == 97 && h[3] == 114 && h[4] == 101 && h[5] == 114
        && h[6] == 32) {
        assert(!has_bearer_prefix(h@)) by {
            if has_bearer_prefix(h@) {
                assert(h@.take(7)[0] == h@[0]);
                assert(h@.take(7)[1] == h@[1]);
                assert(h@.take(7)[2] == h@[2]);
                assert(h@.take(7)[3] == h@[3]);
                assert(h@.take(7)[4] == h@[4]);
                assert(h@.take(7)[5] == h@[5]);
                assert(h@.take(7)[6] == h@[6]);
            }
        }
        return Err(ServiceError::BadScheme);
    }
    assert(h@.take(7) =~= bearer_prefix());
    let mut tok_bytes: Vec<u8> = Vec::new();
    let mut i: usize = 7;
    while i < n
        invariant
            n == h.len(),
            7 <= i <= n,
            is_visible_ascii(h@),
            tok_bytes@ == h@.subrange(7, i as int),
        decreases n - i,
    {
        tok_bytes.push(h[i]);
        assert(tok_bytes@ =~= h@.subrange(7, i + 1 as int));
        i += 1;
    }
    assert(tok_bytes@ =~= h@.skip(7));
    let token = ascii_to_string(tok_bytes);
    match verify_token(token.as_str(), config, now) {
        Ok(claims) => {
            match parse_uuid_str(claims.sub.as_str()) {
                Some(uid) => Ok(uid),
                None => Err(ServiceError::CorruptClaims),
            }
        },
        Err(_) => Err(ServiceError::InvalidToken),
    }
}

} // verus!

