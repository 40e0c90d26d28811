//! The error taxonomy shared by the token service, the authorization guard,
//! the progress tracker and the analytics aggregator, together with the
//! HTTP status class each error maps to.

use vstd::prelude::*;

verus! {

/// Every failure a core operation can report.
///
/// The first four are client authentication errors and map to 401.
/// `CorruptClaims` signals a signing/configuration mismatch on the server
/// side (a token that verified but carries an unusable subject) and maps
/// to 500, deliberately distinct from the client-caused 401 family.
#[derive(Clone, Copy, Debug, PartialEq, Eq, Structural)]
pub enum ServiceError {
    /// No `Authorization` header was presented.
    MissingAuth,
    /// The `Authorization` header is not valid visible-ASCII text.
    MalformedAuth,
    /// The `Authorization` header does not use the `Bearer` scheme.
    BadScheme,
    /// The bearer token failed signature or expiry verification.
    InvalidToken,
    /// The token verified but its subject is not a well-formed identifier.
    CorruptClaims,
    /// A login attempt with an unknown email or a wrong password.
    InvalidCredentials,
    /// A malformed identifier or body field.
    BadRequest,
    /// A referenced entity does not exist.
    NotFound,
    /// The underlying store failed.
    StorageError,
}

impl ServiceError {
    /// True exactly for the errors of the client-auth family, which the
    /// guard reports and which map to 401.
    pub open spec fn is_auth_error(self) -> bool {
        self == ServiceError::MissingAuth || self == ServiceError::MalformedAuth
            || self == ServiceError::BadScheme || self == ServiceError::InvalidToken
    }

    /// The HTTP status class of the error: 401 for the client-auth family,
    /// 500 for server-side faults, 400 for bad identifiers, 404 for a
    /// missing entity.
    pub fn status_code(&self) -> (code: u16)
        ensures
            code == self.spec_status_code(),
    {
        match self {
            ServiceError::MissingAuth => 401,
            ServiceError::MalformedAuth => 401,
            ServiceError::BadScheme => 401,
            ServiceError::InvalidToken => 401,
            ServiceError::CorruptClaims => 500,
            ServiceError::InvalidCredentials => 401,
            ServiceError::BadRequest => 400,
            ServiceError::NotFound => 404,
            ServiceError::StorageError => 500,
        }
    }

    /// The status each error owes its caller, per the propagation policy:
    /// auth errors are terminal 401s, server faults are 500s with no
    /// internal detail, bad identifiers are 400s, absent entities 404s.
    pub open spec fn spec_status_code(self) -> u16 {
        match self {
            ServiceError::MissingAuth => 401,
            ServiceError::MalformedAuth => 401,
            ServiceError::BadScheme => 401,
            ServiceError::InvalidToken => 401,
            ServiceError::CorruptClaims => 500,
            ServiceError::InvalidCredentials => 401,
            ServiceError::BadRequest => 400,
            ServiceError::NotFound => 404,
            ServiceError::StorageError => 500,
        }
    }

    /// A generic client-facing message; storage detail is never leaked.
    pub fn message(&self) -> (msg: &'static str)
        ensures
            self.is_auth_error() ==> msg@ =~= self.spec_message(),
    {
        match self {
            ServiceError::MissingAuth => "No authorization header",
            ServiceError::MalformedAuth => "Invalid authorization header",
            ServiceError::BadScheme => "Invalid token format",
            ServiceError::InvalidToken => "Invalid token",
            ServiceError::CorruptClaims => "Invalid user ID in token",
            ServiceError::InvalidCredentials => "Invalid email or password",
            ServiceError::BadRequest => "Bad request",
            ServiceError::NotFound => "Not found",
            ServiceError::StorageError => "Database error",
        }
    }

    pub open spec fn spec_message(self) -> Seq<char> {
        match self {
            ServiceError::MissingAuth => "No authorization header"@,
            ServiceError::MalformedAuth => "Invalid authorization header"@,
            ServiceError::BadScheme => "Invalid token format"@,
            ServiceError::InvalidToken => "Invalid token"@,
            ServiceError::CorruptClaims => "Invalid user ID in token"@,
            ServiceError::InvalidCredentials => "Invalid email or password"@,
            ServiceError::BadRequest => "Bad request"@,
            ServiceError::NotFound => "Not found"@,
            ServiceError::StorageError => "Database error"@,
        }
    }

    /// Every error of the guard's auth family is answered 401.
    pub proof fn lemma_auth_errors_are_unauthorized(self)
        ensures
            self.is_auth_error() ==> self.spec_status_code() == 401,
    {
    }
}

} // verus!
