//! Sign-up and sign-in: the checks, the password hashing and verification,
//! and the claims a session token carries.
use argon2::password_hash::rand_core::OsRng;
use argon2::password_hash::SaltString;
use argon2::{Argon2, PasswordHash, PasswordHasher, PasswordVerifier};
use crate::handlers::{Reply, reply};
use jsonwebtoken::{encode, EncodingKey, Header};
use crate::ids::{new_v4_id, now_seconds, uuid_text, uuid_to_string};
use vstd::prelude::*;

verus! {

/// How long a session token is valid: 24 hours, in seconds.
pub const TOKEN_LIFETIME_SECONDS: i64 = 86400;

/// The body of a sign-up.
#[derive(Clone, Debug)]
pub struct SignupPayload {
    pub username: String,
    pub email: String,
    pub password: String,
}

/// The body of a sign-in.
#[derive(Clone, Debug)]
pub struct SigninPayload {
    pub username_or_email: String,
    pub password: String,
}

/// A signed session token.
#[derive(Clone, Debug)]
pub struct AuthTokenResponse {
    pub token: String,
    pub token_type: String,
}

/// What a session token says: the user (as UUID text), the user's name, and
/// when it expires (seconds since the Unix epoch).
#[derive(Clone, Debug)]
pub struct JwtClaims {
    pub sub: String,
    pub username: String,
    pub exp: i64,
}

/// A new account.
#[derive(Clone, Debug)]
pub struct SignupResponse {
    pub user_id: u128,
    pub username: String,
    pub allocated_public_key: String,
}

/// The steps of a sign-up that write to the database.
#[derive(Clone, Copy, Debug, PartialEq, Eq, Structural)]
pub enum SignupWrite {
    Begin,
    InsertUser,
    AssignKey,
    CreateCollateral,
    Commit,
}

/// What `Argon2::verify_password` decides for a password and a hash in PHC
/// form that parses.
pub uninterp spec fn argon2_verdict(password: Seq<char>, phc: Seq<char>) -> bool;

/// Whether `PasswordHash::new` accepts a text as a hash in PHC form.
pub uninterp spec fn phc_parses(phc: Seq<char>) -> bool;

/// Calls `PasswordHash::new`: whether the text parses as a hash in PHC form
/// (named `phc_parses`).
#[verifier::external_body]
fn parse_password_hash(phc: &str) -> (r: bool)
    ensures
        r == phc_parses(phc@),
{
    PasswordHash::new(phc).is_ok()
}

/// Calls `Argon2::default().verify_password` on a hash that parses: whether
/// the password hashes, with the hash's own salt and parameters, to the hash
/// (named `argon2_verdict`; any error counts as a mismatch).
#[verifier::external_body]
fn verify_password(password: &str, phc: &str) -> (r: bool)
    requires
        phc_parses(phc@),
    ensures
        r == argon2_verdict(password@, phc@),
{
    match PasswordHash::new(phc) {
        Ok(h) => Argon2::default().verify_password(password.as_bytes(), &h).is_ok(),
        Err(_) => false,
    }
}

/// Calls `Argon2::default().hash_password` with a fresh random salt from the
/// operating system, and gives the hash in PHC form; `None` where hashing
/// failed. The salt is random, so the text is not named. Claimed: hashing
/// succeeds for a password of at most `0x3FFF_FFFF` characters (at most
/// `MAX_PWD_LEN` = `0xFFFF_FFFF` bytes; the generated salt is always of a
/// valid length, and those are the only inputs `hash_password` refuses);
/// every hash that comes back parses (`PasswordHash::new`), and verifying the
/// same password against it succeeds, since `verify_password` recomputes the
/// hash with the algorithm, version, parameters and salt that the text
/// records. (`SaltString::generate` panics if the operating system's random
/// number generator fails, which no `requires` can exclude.)
#[verifier::external_body]
fn hash_with_fresh_salt(password: &str) -> (r: Option<String>)
    ensures
        password@.len() <= 0x3FFF_FFFF ==> r is Some,
        r matches Some(h) ==> phc_parses(h@) && argon2_verdict(password@, h@),
{
    let salt = SaltString::generate(&mut OsRng);
    match Argon2::default().hash_password(password.as_bytes(), &salt) {
        Ok(h) => Some(h.to_string()),
        Err(_) => None,
    }
}

/// The token `jsonwebtoken::encode` gives for the claims `sub`, `username` and
/// `exp` (in that order) under the default header (HS256), signed with the
/// secret.
pub uninterp spec fn jwt_signed(sub: Seq<char>, username: Seq<char>, exp: int, secret: Seq<char>) -> Seq<char>;

/// Calls `jsonwebtoken::encode` with the default header (HS256) on the
/// claims as a JSON object (`sub`, `username`, `exp`) and the secret as an
/// HMAC key; the token is named `jwt_signed`. Claimed: it succeeds, since
/// an HMAC key matches the HS256 header, claims of two strings and an integer
/// always serialise, and HMAC signing cannot fail.
#[verifier::external_body]
fn sign_claims(claims: &JwtClaims, secret: &str) -> (r: Option<String>)
    ensures
        r is Some,
        r matches Some(t) ==> t@ == jwt_signed(claims.sub@, claims.username@, claims.exp as int, secret@),
{
    let mut object = serde_json::Map::new();
    object.insert("sub".to_string(), serde_json::Value::String(claims.sub.clone()));
    object.insert("username".to_string(), serde_json::Value::String(claims.username.clone()));
    object.insert("exp".to_string(), serde_json::Value::from(claims.exp));
    let key = EncodingKey::from_secret(secret.as_bytes());
    encode(&Header::default(), &serde_json::Value::Object(object), &key).ok()
}

/// The answer where a sign-up's write to the database failed.
pub open spec fn signup_write_message(step: SignupWrite) -> Seq<char> {
    match step {
        SignupWrite::Begin => "Failed to initialize database transaction"@,
        SignupWrite::InsertUser => "Failed to save user instance"@,
        SignupWrite::AssignKey => "Failed to allocate pool context mapping"@,
        SignupWrite::CreateCollateral => "Failed to create collateral records"@,
        SignupWrite::Commit => "Failed to lock atomic transaction changes"@,
    }
}

/// A failed write of a sign-up is answered `500` with the step's message.
pub fn signup_write_failed(step: SignupWrite) -> (r: Reply)
    ensures
        r.status == 500,
        r.message@ == signup_write_message(step),
{
    match step {
        SignupWrite::Begin => reply(500, "Failed to initialize database transaction"),
        SignupWrite::InsertUser => reply(500, "Failed to save user instance"),
        SignupWrite::AssignKey => reply(500, "Failed to allocate pool context mapping"),
        SignupWrite::CreateCollateral => reply(500, "Failed to create collateral records"),
        SignupWrite::Commit => reply(500, "Failed to lock atomic transaction changes"),
    }
}

/// The write a sign-up makes after `step`, in order: the transaction is
/// begun, the user is inserted, the pool key is assigned to the user, the
/// collateral record is created, and the transaction is committed; nothing
/// follows the commit.
pub open spec fn write_after(step: SignupWrite) -> Option<SignupWrite> {
    match step {
        SignupWrite::Begin => Some(SignupWrite::InsertUser),
        SignupWrite::InsertUser => Some(SignupWrite::AssignKey),
        SignupWrite::AssignKey => Some(SignupWrite::CreateCollateral),
        SignupWrite::CreateCollateral => Some(SignupWrite::Commit),
        SignupWrite::Commit => None,
    }
}

/// What a sign-up does once a write has run.
#[derive(Clone, Debug)]
pub enum SignupNext {
    /// Run this write next (the checks, the hashing and the key's choice come
    /// between the beginning of the transaction and the insertion of the
    /// user).
    Write(SignupWrite),
    /// Every write succeeded and the transaction is committed.
    Committed,
    /// Give up with this answer; the transaction is dropped uncommitted, so
    /// nothing of the attempt is kept.
    Abort(Reply),
}

/// The sign-up's decision after a write: a failed write aborts with `500`
/// and the write's message; a successful one leads to the next write, and a
/// successful commit completes the sign-up. So a sign-up completes only when
/// every write, in order, succeeded.
pub fn signup_step(step: SignupWrite, succeeded: bool) -> (r: SignupNext)
    ensures
        !succeeded ==> (r matches SignupNext::Abort(rep) && rep.status == 500 && rep.message@
            == signup_write_message(step)),
        succeeded ==> match write_after(step) {
            Some(next) => r == SignupNext::Write(next),
            None => r is Committed,
        },
{
    if !succeeded {
        return SignupNext::Abort(signup_write_failed(step));
    }
    match step {
        SignupWrite::Begin => SignupNext::Write(SignupWrite::InsertUser),
        SignupWrite::InsertUser => SignupNext::Write(SignupWrite::AssignKey),
        SignupWrite::AssignKey => SignupNext::Write(SignupWrite::CreateCollateral),
        SignupWrite::CreateCollateral => SignupNext::Write(SignupWrite::Commit),
        SignupWrite::Commit => SignupNext::Committed,
    }
}

/// A name or an address already taken refuses the sign-up (`400`); a failed
/// lookup (`None`) counts as not taken.
pub fn check_not_registered(exists: Option<bool>) -> (r: Result<(), Reply>)
    ensures
        match r {
            Ok(()) => exists != Some(true),
            Err(rep) => exists == Some(true) && rep.status == 400 && rep.message@
                == "Username or Email already registered"@,
        },
{
    match exists {
        Some(true) => Err(reply(400, "Username or Email already registered")),
        _ => Ok(()),
    }
}

/// Hashes a new password with a fresh random salt; a failure is answered
/// `500`, and happens only for a password of more than `0x3FFF_FFFF`
/// characters. A hash that comes back parses, and the password verifies
/// against it.
pub fn hash_new_password(password: &str) -> (r: Result<String, Reply>)
    ensures
        password@.len() <= 0x3FFF_FFFF ==> r is Ok,
        match r {
            Ok(h) => phc_parses(h@) && argon2_verdict(password@, h@),
            Err(rep) => rep.status == 500 && rep.message@ == "Password encryption failure"@,
        },
{
    match hash_with_fresh_salt(password) {
        Some(h) => Ok(h),
        None => Err(reply(500, "Password encryption failure")),
    }
}

/// The public key taken from the pool of pre-allocated keys: `Some(Some(k))`
/// is a key; an empty pool is answered `503`, a database failure (`None`)
/// `500`.
pub fn pool_key(fetched: Option<Option<String>>) -> (r: Result<String, Reply>)
    ensures
        match fetched {
            Some(Some(k)) => r matches Ok(key) && key@ == k@,
            Some(None) => r matches Err(rep) && rep.status == 503 && rep.message@
                == "Registration pool empty. No pre-allocated MPC keys available."@,
            None => r matches Err(rep) && rep.status == 500 && rep.message@
                == "Database error pulling pool key"@,
        },
{
    match fetched {
        Some(Some(k)) => Ok(k),
        Some(None) => Err(
            reply(503, "Registration pool empty. No pre-allocated MPC keys available."),
        ),
        None => Err(reply(500, "Database error pulling pool key")),
    }
}

/// A fresh random id for a new user.
pub fn new_user_id() -> (r: u128)
    ensures
        (r >> 76u128) & 0xfu128 == 4,
{
    new_v4_id()
}

/// The answer to a completed sign-up.
pub fn signup_response(user_id: u128, username: String, public_key: String) -> (r: SignupResponse)
    ensures
        r.user_id == user_id,
        r.username@ == username@,
        r.allocated_public_key@ == public_key@,
{
    SignupResponse { user_id, username, allocated_public_key: public_key }
}

/// The replica databases a new account's key metadata is copied to: each
/// node's name and the variable that holds its address.
pub fn replica_nodes() -> (r: Vec<(&'static str, &'static str)>)
    ensures
        r@.len() == 3,
        r@[0].0@ == "Node 1"@ && r@[0].1@ == "NODE_1_DB_URL"@,
        r@[1].0@ == "Node 2"@ && r@[1].1@ == "NODE_2_DB_URL"@,
        r@[2].0@ == "Node 3"@ && r@[2].1@ == "NODE_3_DB_URL"@,
{
    vec![("Node 1", "NODE_1_DB_URL"), ("Node 2", "NODE_2_DB_URL"), ("Node 3", "NODE_3_DB_URL")]
}

/// The user a sign-in identifies, once the account was looked up (`None` on
/// a database failure; `Some(None)` when no account has that name or
/// address; otherwise the account's id, name and stored hash): an unknown
/// account or a wrong password is answered `401`, a failed lookup or a stored
/// hash that does not parse `500`.
pub open spec fn signin_check_of(
    lookup: Option<Option<(u128, Seq<char>, Seq<char>)>>,
    password: Seq<char>,
) -> Result<(u128, Seq<char>), (u16, Seq<char>)> {
    match lookup {
        None => Err((500u16, "Database auth parsing failure"@)),
        Some(None) => Err((401u16, "Invalid identifier credentials provided"@)),
        Some(Some((id, name, phc))) => if !phc_parses(phc) {
            Err((500u16, "Error loading cryptographic credentials representation"@))
        } else if !argon2_verdict(password, phc) {
            Err((401u16, "Invalid password entry credentials"@))
        } else {
            Ok((id, name))
        },
    }
}

/// Checks a sign-in: see `signin_check_of`.
pub fn check_signin(lookup: Option<Option<(u128, String, String)>>, password: &str) -> (r: Result<
    (u128, String),
    Reply,
>)
    ensures
        ({
            let l = match lookup {
                None => None,
                Some(None) => Some(None),
                Some(Some((id, name, phc))) => Some(Some((id, name@, phc@))),
            };
            match r {
                Ok((id, name)) => signin_check_of(l, password@) == Ok::<
                    (u128, Seq<char>),
                    (u16, Seq<char>),
                >((id, name@)),
                Err(rep) => signin_check_of(l, password@) == Err::<
                    (u128, Seq<char>),
                    (u16, Seq<char>),
                >((rep.status, rep.message@)),
            }
        }),
{
    match lookup {
        None => Err(reply(500, "Database auth parsing failure")),
        Some(None) => Err(reply(401, "Invalid identifier credentials provided")),
        Some(Some((id, name, phc))) => {
            if !parse_password_hash(phc.as_str()) {
                return Err(reply(500, "Error loading cryptographic credentials representation"));
            }
            if !verify_password(password, phc.as_str()) {
                return Err(reply(401, "Invalid password entry credentials"));
            }
            Ok((id, name))
        },
    }
}

/// The claims of a token issued at `now`: the user's id as UUID text, the
/// name, and an expiry 24 hours later.
pub fn issue_claims(user_id: u128, username: String, now: i64) -> (r: JwtClaims)
    requires
        now <= i64::MAX - TOKEN_LIFETIME_SECONDS,
    ensures
        r.sub@ == uuid_text(user_id),
        r.username@ == username@,
        r.exp == now + TOKEN_LIFETIME_SECONDS,
{
    JwtClaims { sub: uuid_to_string(user_id), username, exp: now + TOKEN_LIFETIME_SECONDS }
}

/// The claims of a token issued now: see `issue_claims`; the expiry is 24
/// hours after the clock's reading.
pub fn claims_for(user_id: u128, username: String) -> (r: JwtClaims)
    ensures
        r.sub@ == uuid_text(user_id),
        r.username@ == username@,
        exists|now: i64|
            clock_reading(now) && r.exp == now + TOKEN_LIFETIME_SECONDS,
{
    let now = now_seconds();
    let r = issue_claims(user_id, username, now);
    assert(clock_reading(now) && r.exp == now + TOKEN_LIFETIME_SECONDS);
    r
}

/// A reading of the clock, in seconds since the Unix epoch.
pub open spec fn clock_reading(now: i64) -> bool {
    -8_400_000_000_000 < now < 8_400_000_000_000
}

/// A sign-in: the account is checked as `signin_check_of` says, and a
/// successful one is answered with a `Bearer` token signed with the secret,
/// whose claims are the user's id as UUID text, the name, and an expiry 24
/// hours after the clock's reading.
pub fn signin(
    lookup: Option<Option<(u128, String, String)>>,
    password: &str,
    secret: &str,
) -> (r: Result<AuthTokenResponse, Reply>)
    ensures
        ({
            let l = match lookup {
                None => None,
                Some(None) => Some(None),
                Some(Some((id, name, phc))) => Some(Some((id, name@, phc@))),
            };
            match signin_check_of(l, password@) {
                Err((status, message)) => r matches Err(rep) && rep.status == status
                    && rep.message@ == message,
                Ok((id, name)) => r matches Ok(a) && a.token_type@ == "Bearer"@ && exists|now: i64|
                    clock_reading(now) && a.token@ == jwt_signed(
                        uuid_text(id),
                        name,
                        now + TOKEN_LIFETIME_SECONDS,
                        secret@,
                    ),
            }
        }),
{
    let (user_id, username) = match check_signin(lookup, password) {
        Ok(found) => found,
        Err(rep) => {
            return Err(rep);
        },
    };
    let claims = claims_for(user_id, username);
    let token = sign_claims(&claims, secret);
    token_reply(token)
}

/// The answer once the claims were signed (`None` where signing failed,
/// answered `500`): the token, of type `Bearer`.
pub fn token_reply(token: Option<String>) -> (r: Result<AuthTokenResponse, Reply>)
    ensures
        match token {
            Some(t) => r matches Ok(a) && a.token@ == t@ && a.token_type@ == "Bearer"@,
            None => r matches Err(rep) && rep.status == 500 && rep.message@
                == "Failed to synthesize signed auth string"@,
        },
{
    match token {
        Some(t) => Ok(AuthTokenResponse { token: t, token_type: "Bearer".to_owned() }),
        None => Err(reply(500, "Failed to synthesize signed auth string")),
    }
}

} // verus!
