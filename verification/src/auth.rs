//! Accounts and tokens: the claims a session token carries, registration and
//! login checks, and the authenticated user a request carries.
use vstd::prelude::*;

use crate::text::{byte_len, str_equal};

verus! {

/// The HTTP status codes the handlers answer with.
pub const STATUS_OK: u16 = 200;
pub const STATUS_BAD_REQUEST: u16 = 400;
pub const STATUS_UNAUTHORIZED: u16 = 401;
pub const STATUS_FORBIDDEN: u16 = 403;
pub const STATUS_NOT_FOUND: u16 = 404;
pub const STATUS_CONFLICT: u16 = 409;
pub const STATUS_INTERNAL_ERROR: u16 = 500;

/// The claims of a session token: the user, the expiry as a Unix timestamp,
/// and the user's role.
#[derive(Clone, Debug)]
pub struct Claims {
    pub sub: i32,
    pub exp: usize,
    pub role: String,
}

/// How long a token is valid, in seconds.
pub const TOKEN_LIFETIME_SECS: i64 = 24 * 3600;

/// The expiry stamped into a token issued at `now` (Unix seconds): 24 hours
/// later, reinterpreted as `usize` as `as usize` does.
pub open spec fn expiry_for(now: i64) -> usize {
    (now + TOKEN_LIFETIME_SECS) as usize
}

/// Calls chrono's `Utc::now()` and gives its Unix timestamp in seconds.
/// Claimed: the value lies within ±10^13, a range that holds every instant of
/// chrono's `DateTime<Utc>`; the value itself depends on the clock and is not stated.
#[verifier::external_body]
fn unix_now() -> (r: i64)
    ensures
        -10_000_000_000_000 <= r <= 10_000_000_000_000,
{
    chrono::Utc::now().timestamp()
}

impl Claims {
    /// The claims for `user_id` with `role`, expiring 24 hours after `now`
    /// (Unix seconds); the expiry is the timestamp reinterpreted as `usize`.
    pub fn expiring_after(user_id: i32, role: &str, now: i64) -> (r: Claims)
        requires
            -10_000_000_000_000 <= now <= 10_000_000_000_000,
        ensures
            r.sub == user_id,
            r.exp == expiry_for(now),
            r.role@ == role@,
    {
        let exp = (now + TOKEN_LIFETIME_SECS) as usize;
        Claims { sub: user_id, exp, role: String::from_str(role) }
    }

    /// The claims for `user_id` with `role`, expiring 24 hours from now.
    pub fn new(user_id: i32, role: &str) -> (r: Claims)
        ensures
            r.sub == user_id,
            r.role@ == role@,
            exists|now: i64|
                -10_000_000_000_000 <= now <= 10_000_000_000_000 && r.exp == #[trigger] expiry_for(
                    now,
                ),
    {
        let now = unix_now();
        Claims::expiring_after(user_id, role, now)
    }
}

/// The user a request was authenticated as.
#[derive(Clone, Debug)]
pub struct AuthUser {
    pub user_id: i32,
    pub role: String,
}

impl AuthUser {
    /// The authenticated user from the claims that the authentication layer
    /// attached to a request; 401 where it attached none.
    pub fn from_claims(claims: Option<Claims>) -> (r: Result<AuthUser, u16>)
        ensures
            match claims {
                None => r == Err::<AuthUser, u16>(STATUS_UNAUTHORIZED),
                Some(c) => r matches Ok(u) && u.user_id == c.sub && u.role == c.role,
            },
    {
        match claims {
            None => Err(STATUS_UNAUTHORIZED),
            Some(c) => Ok(AuthUser { user_id: c.sub, role: c.role }),
        }
    }
}

/// A registration request; the role defaults to `human_expert`.
#[derive(Clone, Debug)]
pub struct RegisterRequest {
    pub name: String,
    pub password: String,
    pub role: Option<String>,
}

/// A login request.
#[derive(Clone, Debug)]
pub struct LoginRequest {
    pub name: String,
    pub password: String,
}

/// The answer to a successful registration or login.
#[derive(Clone, Debug)]
pub struct AuthResponse {
    pub token: String,
    pub user_id: i32,
    pub role: String,
}

/// The role a registration asks for.
pub open spec fn requested_role(req: RegisterRequest) -> Seq<char> {
    match req.role {
        Some(r) => r@,
        None => "human_expert"@,
    }
}

/// A registration is accepted when the name is not empty, the password has at
/// least 6 bytes and the role is `human_expert` or `admin`.
pub open spec fn registration_valid(req: RegisterRequest) -> bool {
    &&& req.name@.len() > 0
    &&& byte_len(req.password@) >= 6
    &&& (requested_role(req) == "human_expert"@ || requested_role(req) == "admin"@)
}

/// Registration accepts exactly a non-empty name, a password of at least 6
/// bytes and the role `human_expert` or `admin`; no role asked for means
/// `human_expert`.
pub proof fn lemma_registration_rules(req: RegisterRequest)
    ensures
        registration_valid(req) == (req.name@.len() > 0 && byte_len(req.password@) >= 6 && match req.role {
            None => true,
            Some(r) => r@ == "human_expert"@ || r@ == "admin"@,
        }),
        req.role is None ==> requested_role(req) == "human_expert"@,
{
}

impl RegisterRequest {
    /// The role to register, or 400 for an empty name, a password of fewer
    /// than 6 bytes or a role other than `human_expert` and `admin`.
    pub fn validate(&self) -> (r: Result<String, u16>)
        ensures
            match r {
                Ok(role) => registration_valid(*self) && role@ == requested_role(*self),
                Err(code) => !registration_valid(*self) && code == STATUS_BAD_REQUEST,
            },
    {
        if self.name.as_str().is_empty() || self.password.as_str().len() < 6 {
            return Err(STATUS_BAD_REQUEST);
        }
        let role = match &self.role {
            Some(r) => String::from_str(r.as_str()),
            None => String::from_str("human_expert"),
        };
        if !str_equal(role.as_str(), "human_expert") && !str_equal(role.as_str(), "admin") {
            return Err(STATUS_BAD_REQUEST);
        }
        Ok(role)
    }
}

/// Whether bcrypt's `verify` accepts a password against a stored hash:
/// `Some(answer)`, or `None` where it returns an error.
pub uninterp spec fn spec_bcrypt_verify(password: Seq<char>, hash: Seq<char>) -> Option<bool>;

/// The bcrypt work factor for new password hashes.
pub const HASH_COST: u32 = 12;

/// The ASCII digit of `d`, for `d` below 10.
pub open spec fn ascii_digit(d: int) -> char {
    "0123456789"@[d]
}

/// The start of a bcrypt hash made with `cost`: `$2b$`, the cost in two
/// decimal digits, and `$`.
pub open spec fn bcrypt_prefix(cost: u32) -> Seq<char> {
    "$2b$"@ + seq![ascii_digit((cost / 10) as int), ascii_digit((cost % 10) as int)] + "$"@
}

/// Calls bcrypt's `hash` with the given cost; the salt is drawn at random, so
/// the hash itself is not stated. Claimed: it succeeds only for a cost from 4
/// to 31; the hash it returns is 60 characters long and starts with
/// `bcrypt_prefix(cost)` (bcrypt writes version `2b` and the cost into it);
/// and bcrypt's `verify` of the same password against the hash answers
/// `Ok(true)` (it re-hashes with the cost and salt stored in the hash).
#[verifier::external_body]
fn bcrypt_hash(password: &str, cost: u32) -> (r: Option<String>)
    ensures
        r matches Some(h) ==> {
            &&& 4 <= cost <= 31
            &&& h@.len() == 60
            &&& h@.take(7) == bcrypt_prefix(cost)
            &&& spec_bcrypt_verify(password@, h@) == Some(true)
        },
{
    bcrypt::hash(password, cost).ok()
}

/// Calls bcrypt's `verify`. Claimed: the answer is the named value
/// `spec_bcrypt_verify` of password and hash, `None` exactly where it errs.
#[verifier::external_body]
fn bcrypt_verify(password: &str, hash: &str) -> (r: Option<bool>)
    ensures
        r == spec_bcrypt_verify(password@, hash@),
{
    bcrypt::verify(password, hash).ok()
}

/// A user row to insert: the name, the password hash and the role.
#[derive(Clone, Debug)]
pub struct NewUser {
    pub name: String,
    pub password_hash: String,
    pub role: String,
}

/// The user to insert for a registration request: 400 for an invalid request,
/// 500 where hashing the password fails, else the name, a bcrypt hash made
/// with cost 12 that verifies the password, and the role.
pub fn prepare_registration(req: &RegisterRequest) -> (r: Result<NewUser, u16>)
    ensures
        !registration_valid(*req) ==> r == Err::<NewUser, u16>(STATUS_BAD_REQUEST),
        registration_valid(*req) ==> match r {
            Ok(u) => {
                &&& u.name@ == req.name@
                &&& u.role@ == requested_role(*req)
                &&& u.password_hash@.len() == 60
                &&& u.password_hash@.take(7) == bcrypt_prefix(HASH_COST)
                &&& spec_bcrypt_verify(req.password@, u.password_hash@) == Some(true)
            },
            Err(code) => code == STATUS_INTERNAL_ERROR,
        },
{
    let role = req.validate()?;
    match bcrypt_hash(req.password.as_str(), HASH_COST) {
        None => Err(STATUS_INTERNAL_ERROR),
        Some(h) => Ok(NewUser { name: String::from_str(req.name.as_str()), password_hash: h, role }),
    }
}

/// The login outcome for a password, given the stored hash of the named user
/// where there is one: 401 for an unknown user or a wrong password, 500 where
/// the stored hash cannot be checked.
pub open spec fn spec_login(password: Seq<char>, stored_hash: Option<Seq<char>>) -> Result<(), u16> {
    match stored_hash {
        None => Err(STATUS_UNAUTHORIZED),
        Some(h) => match spec_bcrypt_verify(password, h) {
            None => Err(STATUS_INTERNAL_ERROR),
            Some(false) => Err(STATUS_UNAUTHORIZED),
            Some(true) => Ok(()),
        },
    }
}

/// Checks a login's password against the stored hash of the named user
/// (`None` where no user has that name).
pub fn check_login(password: &str, stored_hash: Option<&str>) -> (r: Result<(), u16>)
    ensures
        r == spec_login(
            password@,
            match stored_hash {
                Some(h) => Some(h@),
                None => None,
            },
        ),
{
    match stored_hash {
        None => Err(STATUS_UNAUTHORIZED),
        Some(h) => match bcrypt_verify(password, h) {
            None => Err(STATUS_INTERNAL_ERROR),
            Some(false) => Err(STATUS_UNAUTHORIZED),
            Some(true) => Ok(()),
        },
    }
}

/// A user registered with a password logs in with that same password: the
/// hash that registration stores verifies it.
pub proof fn lemma_registered_password_logs_in(password: Seq<char>, stored_hash: Seq<char>)
    requires
        spec_bcrypt_verify(password, stored_hash) == Some(true),
    ensures
        spec_login(password, Some(stored_hash)) == Ok::<(), u16>(()),
{
}

} // verus!
