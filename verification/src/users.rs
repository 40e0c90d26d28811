//! Accounts: the user directory and the register / login / profile
//! operations around it.
//!
//! Registration hashes the password, draws a fresh identifier, inserts
//! the account — emails are unique — and issues a token; login verifies
//! the password against the stored hash and issues a token; profile maps
//! an authenticated request to its account. The directory's meaning is
//! a finite map from user id to record.

use vstd::prelude::*;
use vstd::string::StringSliceAdditionalSpecFns;

use crate::auth::{
    bcrypt_check, guarded_outcome, generate_token, hash_password, new_user_id, opt_view,
    token_of, uuid_str, verify_password, authorize,
};
use crate::config::Config;
use crate::errors::ServiceError;
use crate::rows::{
    distinct_keys, lemma_row_map_contains, lemma_row_map_index, lemma_row_map_len,
    lemma_row_map_push, row_map,
};

verus! {

/// The public face of an account; the password credential never leaves
/// the directory.
#[derive(Debug)]
pub struct User {
    pub id: u128,
    pub username: String,
    pub email: String,
    pub created_at: i64,
}

/// The data a fresh registration carries into the directory.
#[derive(Debug)]
pub struct CreateUser {
    pub id: u128,
    pub username: String,
    pub email: String,
    pub password_hash: String,
}

/// A registration request body.
pub struct RegisterRequest {
    pub username: String,
    pub email: String,
    pub password: String,
}

/// A login request body.
pub struct LoginRequest {
    pub email: String,
    pub password: String,
}

/// What a successful register or login returns: the issued token and
/// the account it asserts.
#[derive(Debug)]
pub struct AuthResponse {
    pub token: String,
    pub user: User,
}

/// One stored account row.
#[derive(Debug)]
pub struct UserRecord {
    pub id: u128,
    pub username: String,
    pub email: String,
    pub password_hash: String,
    pub created_at: i64,
}

/// String equality, decided byte-wise; UTF-8 encoding is lossless, so
/// equal bytes mean equal text.
fn str_eq(a: &str, b: &str) -> (r: bool)
    ensures
        r == (a@ == b@),
{
    let ab = a.as_bytes();
    let bb = b.as_bytes();
    let n = ab.len();
    if n != bb.len() {
        return false;
    }
    let mut i: usize = 0;
    while i < n
        invariant
            n == ab@.len(),
            n == bb@.len(),
            ab@ == a.spec_bytes(),
            bb@ == b.spec_bytes(),
            i <= n,
            forall|j: int| 0 <= j < i ==> ab@[j] == bb@[j],
        decreases n - i,
    {
        if ab[i] != bb[i] {
            return false;
        }
        i += 1;
    }
    proof {
        assert(ab@ =~= bb@);
        vstd::utf8::encode_utf8_decode_utf8(a@);
        vstd::utf8::encode_utf8_decode_utf8(b@);
    }
    true
}

/// The id extractor as a value, for the row-map lemmas.
pub open spec fn ukey() -> spec_fn(UserRecord) -> u128 {
    |u: UserRecord| u.id
}

/// Whether some account already claims this email.
pub open spec fn email_taken(m: Map<u128, UserRecord>, email: Seq<char>) -> bool {
    exists|k: u128| #[trigger] m.dom().contains(k) && m[k].email@ == email
}

/// The user directory: one row per account id, emails unique.
pub struct UserStore {
    rows: Vec<UserRecord>,
}

impl View for UserStore {
    type V = Map<u128, UserRecord>;

    closed spec fn view(&self) -> Map<u128, UserRecord> {
        row_map(self.rows@, ukey())
    }
}

impl UserStore {
    #[verifier::type_invariant]
    spec fn inv(self) -> bool {
        &&& distinct_keys(self.rows@, ukey())
        &&& forall|i: int, j: int|
            0 <= i < j < self.rows@.len() ==> (#[trigger] self.rows@[i]).email@ != (
            #[trigger] self.rows@[j]).email@
        &&& forall|i: int, p: Seq<char>|
            0 <= i < self.rows@.len() ==> (#[trigger] bcrypt_check(
                p,
                self.rows@[i].password_hash@,
            )) is Some
    }

    /// An empty directory.
    pub fn new() -> (r: UserStore)
        ensures
            r@ == Map::<u128, UserRecord>::empty(),
    {
        UserStore { rows: Vec::new() }
    }

    /// The number of accounts.
    pub fn len(&self) -> (n: usize)
        ensures
            n == self@.dom().len(),
            self@.dom().finite(),
    {
        proof {
            use_type_invariant(self);
            lemma_row_map_len(self.rows@, ukey());
        }
        self.rows.len()
    }

    fn find_by_id(&self, id: u128) -> (r: Option<usize>)
        ensures
            match r {
                Some(i) => i < self.rows@.len() && self.rows@[i as int].id == id
                    && self@.contains_key(id) && self@[id] == self.rows@[i as int],
                None => !self@.contains_key(id),
            },
    {
        proof {
            use_type_invariant(self);
        }
        let n = self.rows.len();
        let mut i: usize = 0;
        while i < n
            invariant
                n == self.rows@.len(),
                i <= n,
                forall|j: int| 0 <= j < i ==> (#[trigger] self.rows@[j]).id != id,
            decreases n - i,
        {
            if self.rows[i].id == id {
                proof {
                    use_type_invariant(self);
                    lemma_row_map_index(self.rows@, ukey(), i as int);
                }
                return Some(i);
            }
            i += 1;
        }
        proof {
            lemma_row_map_contains(self.rows@, ukey(), id);
        }
        None
    }

    fn find_by_email(&self, email: &str) -> (r: Option<usize>)
        ensures
            match r {
                Some(i) => i < self.rows@.len() && self.rows@[i as int].email@ == email@
                    && self@.contains_key(self.rows@[i as int].id) && self@[self.rows@[i as int].id]
                    == self.rows@[i as int],
                None => !email_taken(self@, email@),
            },
    {
        proof {
            use_type_invariant(self);
        }
        let n = self.rows.len();
        let mut i: usize = 0;
        while i < n
            invariant
                n == self.rows@.len(),
                i <= n,
                forall|j: int| 0 <= j < i ==> (#[trigger] self.rows@[j]).email@ != email@,
            decreases n - i,
        {
            if str_eq(self.rows[i].email.as_str(), email) {
                proof {
                    use_type_invariant(self);
                    lemma_row_map_index(self.rows@, ukey(), i as int);
                }
                return Some(i);
            }
            i += 1;
        }
        proof {
            use_type_invariant(self);
            assert forall|k: u128| self@.dom().contains(k) implies self@[k].email@ != email@ by {
                lemma_row_map_contains(self.rows@, ukey(), k);
                let j = choose|j: int| 0 <= j < self.rows@.len() && ukey()(self.rows@[j]) == k;
                lemma_row_map_index(self.rows@, ukey(), j);
            }
        }
        None
    }

    /// The public view of an account, if the id exists.
    pub fn get_user(&self, id: u128) -> (r: Option<User>)
        ensures
            match r {
                Some(u) => self@.contains_key(id) && u.id == id && u.username@
                    == self@[id].username@ && u.email@ == self@[id].email@ && u.created_at
                    == self@[id].created_at,
                None => !self@.contains_key(id),
            },
    {
        match self.find_by_id(id) {
            Some(i) => {
                let rec = &self.rows[i];
                Some(
                    User {
                        id: rec.id,
                        username: rec.username.clone(),
                        email: rec.email.clone(),
                        created_at: rec.created_at,
                    },
                )
            },
            None => None,
        }
    }

    /// Register an account: an already-claimed email is rejected before
    /// anything is written; otherwise the password is hashed, a fresh id
    /// drawn, the account inserted and a token issued for it. A hashing
    /// failure or an id collision is a server-side fault and writes
    /// nothing; if only the token issuance fails the account stays, as
    /// the insert has already happened.
    pub fn register(&mut self, req: &RegisterRequest, config: &Config, now: i64) -> (r: Result<
        AuthResponse,
        ServiceError,
    >)
        requires
            0 <= now,
            now + config.jwt_expires_in <= usize::MAX,
        ensures
            r == Err::<AuthResponse, ServiceError>(ServiceError::BadRequest) <==> email_taken(
                old(self)@,
                req.email@,
            ),
            r matches Err(e) ==> (e == ServiceError::BadRequest
                || e == ServiceError::StorageError),
            r matches Err(_) ==> final(self)@ == old(self)@,
            r matches Ok(resp) ==> ({
                &&& !old(self)@.contains_key(resp.user.id)
                &&& final(self)@ == old(self)@.insert(resp.user.id, final(self)@[resp.user.id])
                &&& final(self)@.contains_key(resp.user.id)
                &&& final(self)@[resp.user.id].id == resp.user.id
                &&& final(self)@[resp.user.id].username@ == req.username@
                &&& final(self)@[resp.user.id].email@ == req.email@
                &&& final(self)@[resp.user.id].created_at == now
                &&& bcrypt_check(req.password@, final(self)@[resp.user.id].password_hash@)
                    == Some(true)
                &&& resp.user.id == final(self)@[resp.user.id].id
                &&& resp.user.username@ == req.username@
                &&& resp.user.email@ == req.email@
                &&& resp.user.created_at == now
                &&& resp.token@ == token_of(
                    config.jwt_secret@,
                    uuid_str(resp.user.id),
                    now as usize,
                    (now + config.jwt_expires_in) as usize,
                )
            }),
    {
        proof {
            use_type_invariant(&*self);
        }
        if self.find_by_email(req.email.as_str()).is_some() {
            return Err(ServiceError::BadRequest);
        }
        let hash = match hash_password(req.password.as_str()) {
            Ok(h) => h,
            Err(_) => {
                return Err(ServiceError::StorageError);
            },
        };
        let ghost hash_view = hash@;
        let id = new_user_id();
        if self.find_by_id(id).is_some() {
            return Err(ServiceError::StorageError);
        }
        let rec = UserRecord {
            id,
            username: req.username.clone(),
            email: req.email.clone(),
            password_hash: hash,
            created_at: now,
        };
        let ghost old_rows = self.rows@;
        proof {
            lemma_row_map_push(old_rows, ukey(), rec);
            lemma_row_map_contains(old_rows, ukey(), id);
        }
        let mut rows: Vec<UserRecord> = Vec::new();
        core::mem::swap(&mut self.rows, &mut rows);
        rows.push(rec);
        proof {
            assert forall|p: int, q: int|
                0 <= p < q < rows@.len() implies (#[trigger] rows@[p]).id != (
            #[trigger] rows@[q]).id by {
                if q == old_rows.len() {
                    assert(rows@[p] == old_rows[p]);
                    lemma_row_map_contains(old_rows, ukey(), old_rows[p].id);
                } else {
                    assert(rows@[p] == old_rows[p]);
                    assert(rows@[q] == old_rows[q]);
                }
            }
            assert forall|p: int, q: int|
                0 <= p < q < rows@.len() implies (#[trigger] rows@[p]).email@ != (
            #[trigger] rows@[q]).email@ by {
                if q == old_rows.len() {
                    assert(rows@[p] == old_rows[p]);
                    lemma_row_map_index(old_rows, ukey(), p);
                } else {
                    assert(rows@[p] == old_rows[p]);
                    assert(rows@[q] == old_rows[q]);
                }
            }
            assert forall|p: int, pw: Seq<char>|
                0 <= p < rows@.len() implies (#[trigger] bcrypt_check(
                pw,
                rows@[p].password_hash@,
            )) is Some by {
                if p < old_rows.len() {
                    assert(rows@[p] == old_rows[p]);
                } else {
                    assert(rows@[p].password_hash@ == hash_view);
                }
            }
        }
        core::mem::swap(&mut self.rows, &mut rows);
        let user = User {
            id,
            username: req.username.clone(),
            email: req.email.clone(),
            created_at: now,
        };
        match generate_token(id, config, now as usize) {
            Ok(token) => Ok(AuthResponse { token, user }),
            Err(e) => Err(e),
        }
    }

    /// Log an account in: unknown email or wrong password fail with
    /// `InvalidCredentials` — deliberately the same answer for both —
    /// and a good pair issues a token for the account, if and only if:
    /// for the record carrying the email, bcrypt's accepting the
    /// password decides the call. Reads only.
    pub fn login(&self, req: &LoginRequest, config: &Config, now: i64) -> (r: Result<
        AuthResponse,
        ServiceError,
    >)
        requires
            0 <= now,
            now + config.jwt_expires_in <= usize::MAX,
        ensures
            !email_taken(self@, req.email@) ==> r == Err::<AuthResponse, ServiceError>(
                ServiceError::InvalidCredentials,
            ),
            r matches Err(e) ==> e == ServiceError::InvalidCredentials,
            forall|k: u128|
                #[trigger] self@.dom().contains(k) && self@[k].email@ == req.email@ ==> ({
                    &&& (bcrypt_check(req.password@, self@[k].password_hash@) == Some(true)
                        ==> (r matches Ok(resp) && resp.user.id == k && resp.user.username@
                        == self@[k].username@ && resp.user.email@ == self@[k].email@
                        && resp.user.created_at == self@[k].created_at && resp.token@ == token_of(
                        config.jwt_secret@,
                        uuid_str(k),
                        now as usize,
                        (now + config.jwt_expires_in) as usize,
                    )))
                    &&& (bcrypt_check(req.password@, self@[k].password_hash@) == Some(false)
                        ==> r == Err::<AuthResponse, ServiceError>(
                        ServiceError::InvalidCredentials,
                    ))
                    &&& (r matches Ok(resp) ==> resp.user.id == k && bcrypt_check(
                        req.password@,
                        self@[k].password_hash@,
                    ) == Some(true))
                }),
    {
        proof {
            use_type_invariant(self);
        }
        let i = match self.find_by_email(req.email.as_str()) {
            Some(i) => i,
            None => {
                return Err(ServiceError::InvalidCredentials);
            },
        };
        let rec = &self.rows[i];
        proof {
            assert forall|k: u128|
                self@.dom().contains(k) && self@[k].email@ == req.email@ implies k == rec.id by {
                lemma_row_map_contains(self.rows@, ukey(), k);
                let j = choose|j: int| 0 <= j < self.rows@.len() && ukey()(self.rows@[j]) == k;
                lemma_row_map_index(self.rows@, ukey(), j);
                if j != i {
                    assert(self.rows@[j].email@ != self.rows@[i as int].email@);
                }
            }
        }
        let valid = match verify_password(req.password.as_str(), rec.password_hash.as_str()) {
            Ok(v) => v,
            Err(_) => {
                // Unreachable: every stored hash came from `hash_password`,
                // so bcrypt parses it under any password.
                proof {
                    assert(bcrypt_check(req.password@, self.rows@[i as int].password_hash@)
                        is Some);
                    assert(false);
                }
                return Err(ServiceError::InvalidCredentials);
            },
        };
        if !valid {
            return Err(ServiceError::InvalidCredentials);
        }
        let user = User {
            id: rec.id,
            username: rec.username.clone(),
            email: rec.email.clone(),
            created_at: rec.created_at,
        };
        match generate_token(user.id, config, now as usize) {
            Ok(token) => Ok(AuthResponse { token, user }),
            Err(e) => Err(e),
        }
    }
}

/// The profile endpoint: the guard authenticates the request, then the
/// account is looked up; an authenticated id with no account is
/// `NotFound`. Touches no store state (reads only).
pub fn profile(
    users: &UserStore,
    header: Option<&Vec<u8>>,
    config: &Config,
    now: i64,
) -> (r: Result<User, ServiceError>)
    ensures
        header is None ==> r == Err::<User, ServiceError>(ServiceError::MissingAuth),
        guarded_outcome(
            opt_view(header),
            config.jwt_secret@,
            now,
            |e: ServiceError| r == Err::<User, ServiceError>(e),
            |uid: u128| (match r {
                Ok(u) => users@.contains_key(uid) && u.id == uid && u.username@
                    == users@[uid].username@ && u.email@ == users@[uid].email@ && u.created_at
                    == users@[uid].created_at,
                Err(e) => e == ServiceError::NotFound && !users@.contains_key(uid),
            }),
        ),
{
    let uid = match authorize(header, config, now) {
        Ok(uid) => uid,
        Err(e) => {
            return Err(e);
        },
    };
    match users.get_user(uid) {
        Some(u) => Ok(u),
        None => Err(ServiceError::NotFound),
    }
}

/// The logout endpoint: bearer tokens are stateless, so there is
/// nothing to revoke server-side; the client discards the token.
pub fn logout() -> (r: &'static str)
    ensures
        r@ == "Logged out successfully"@,
{
    "Logged out successfully"
}

} // verus!
