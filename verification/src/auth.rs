//! Operators, tenants, users, memberships and sessions.  The request layer
//! only ever sees opaque session tokens; the store keeps their digests.

use vstd::prelude::*;
use vstd::string::StringExecFns;
use crate::clock::{max_instant, min_instant, utc_now_micros};
use crate::digest::{hex_encode, hex_lower, sha256_hex_str, sha256_hex_text, utf8};
use crate::error::{AppError, ErrorCode, ErrorV, err};
use crate::ids::{new_uuid, OperatorId, SessionId, TenantId, UserId};
use crate::rules::{invalid, text_result, text_rule, unit_result, validate_text};
use crate::text::{
    ascii_lower, ascii_upper, char_is_whitespace, contains, is_ascii_upper, lemma_case_keeps_whitespace, lemma_lower_absorbs,
    lemma_trim_clean, lemma_trim_end_char_last, lemma_trim_end_char_map, lemma_trimmed_clean, lemma_trimmed_map, lower_char,
    upper_char, has_substring, str_eq, to_ascii_lowercase, trim, trim_end_char, trim_end_matches, trimmed};

verus! {

/// The e-mail address of the development user.
pub open spec fn development_user_email() -> Seq<char> {
    "demo@localhost"@
}

/// Twelve hours, the default lifetime of a session.
pub const DEFAULT_SESSION_TTL_SECS: i64 = 43200;

/// The development operator, tenant and user identifiers.
pub const DEVELOPMENT_OPERATOR_UUID: u128 = 0x00000000000040008000000000000001;
pub const DEVELOPMENT_TENANT_UUID: u128 = 0x00000000000040008000000000000002;
pub const DEVELOPMENT_PROJECT_UUID: u128 = 0x00000000000040008000000000000003;
pub const DEVELOPMENT_USER_UUID: u128 = 0x00000000000040008000000000000004;

// ---------------------------------------------------------------------------
// Roles.
// ---------------------------------------------------------------------------

#[derive(Debug, Clone, Copy, PartialEq, Eq, Structural, Hash)]
pub enum Role {
    CustomerAdmin,
    CustomerMember,
    CustomerReadOnly,
    Operator,
    ResourceAdmin,
    OemAdmin,
}

pub open spec fn role_text(role: Role) -> Seq<char> {
    match role {
        Role::CustomerAdmin => "customer_admin"@,
        Role::CustomerMember => "customer_member"@,
        Role::CustomerReadOnly => "customer_read_only"@,
        Role::Operator => "operator"@,
        Role::ResourceAdmin => "resource_admin"@,
        Role::OemAdmin => "oem_admin"@,
    }
}

impl Role {
    /// The role's stored name.
    pub fn as_str(self) -> (name: &'static str)
        ensures
            name@ == role_text(self),
    {
        match self {
            Role::CustomerAdmin => "customer_admin",
            Role::CustomerMember => "customer_member",
            Role::CustomerReadOnly => "customer_read_only",
            Role::Operator => "operator",
            Role::ResourceAdmin => "resource_admin",
            Role::OemAdmin => "oem_admin",
        }
    }

    /// The role stored under `value`; any other name is an internal error.
    pub fn parse(value: &str) -> (r: Result<Role, AppError>)
        ensures
            match r {
                Ok(role) => role_text(role) == value@,
                Err(e) => (forall|role: Role| role_text(role) != value@) && e@ == err(
                    ErrorCode::Internal,
                    "invalid role in database: "@ + value@,
                ),
            },
    {
        proof {
            reveal_strlit("customer_admin");
            reveal_strlit("customer_member");
            reveal_strlit("customer_read_only");
            reveal_strlit("operator");
            reveal_strlit("resource_admin");
            reveal_strlit("oem_admin");
        }
        if str_eq(value, "customer_admin") {
            Ok(Role::CustomerAdmin)
        } else if str_eq(value, "customer_member") {
            Ok(Role::CustomerMember)
        } else if str_eq(value, "customer_read_only") {
            Ok(Role::CustomerReadOnly)
        } else if str_eq(value, "operator") {
            Ok(Role::Operator)
        } else if str_eq(value, "resource_admin") {
            Ok(Role::ResourceAdmin)
        } else if str_eq(value, "oem_admin") {
            Ok(Role::OemAdmin)
        } else {
            let message = String::from_str("invalid role in database: ").concat(value);
            Err(AppError::with_message(ErrorCode::Internal, message))
        }
    }

    /// Every role but read-only may change the tenant's resources.
    pub fn can_write(self) -> (b: bool)
        ensures
            b == (self != Role::CustomerReadOnly),
    {
        !matches!(self, Role::CustomerReadOnly)
    }
}

/// Distinct roles have distinct stored names, so `Role::parse` gives a role
/// back from its `as_str` name.
pub proof fn lemma_role_names_distinct(a: Role, b: Role)
    requires
        role_text(a) == role_text(b),
    ensures
        a == b,
{
    reveal_strlit("customer_admin");
    reveal_strlit("customer_member");
    reveal_strlit("customer_read_only");
    reveal_strlit("operator");
    reveal_strlit("resource_admin");
    reveal_strlit("oem_admin");
    assert("customer_admin"@.len() == 14 && "resource_admin"@.len() == 14);
    assert("customer_member"@.len() == 15 && "customer_read_only"@.len() == 18);
    assert("operator"@.len() == 8 && "oem_admin"@.len() == 9);
    assert("customer_admin"@[0] == 'c' && "resource_admin"@[0] == 'r');
    if a != b {
        if a == Role::CustomerAdmin && b == Role::ResourceAdmin {
            assert(role_text(a)[0] != role_text(b)[0]);
        } else if b == Role::CustomerAdmin && a == Role::ResourceAdmin {
            assert(role_text(a)[0] != role_text(b)[0]);
        } else {
            assert(role_text(a).len() != role_text(b).len());
        }
    }
}

// ---------------------------------------------------------------------------
// Hosts, e-mail addresses and tokens.
// ---------------------------------------------------------------------------

pub open spec fn host_norm(host: Seq<char>) -> Seq<char> {
    ascii_lower(trim_end_char(trimmed(host), '.'))
}

/// A host name trimmed, without trailing dots, in ASCII lower case.
pub fn normalize_host(host: &str) -> (r: String)
    ensures
        r@ == host_norm(host@),
{
    to_ascii_lowercase(trim_end_matches(trim(host), '.'))
}

/// The checks an e-mail address passes, and its normal form.
pub open spec fn email_rule(email: Seq<char>) -> Result<Seq<char>, ErrorV> {
    let e = ascii_lower(trimmed(email));
    if e.len() == 0 || utf8(e).len() > 320 || !has_substring(e, "@"@) {
        Err(invalid("email must be a valid address"@))
    } else {
        Ok(e)
    }
}

/// An e-mail address trimmed and in ASCII lower case, when it is not empty,
/// holds an `@` and has at most 320 bytes.
pub fn normalize_email(email: &str) -> (r: Result<String, AppError>)
    ensures
        text_result(r) == email_rule(email@),
{
    let e = to_ascii_lowercase(trim(email));
    if e.unicode_len() == 0 || e.as_str().as_bytes().len() > 320 || !contains(e.as_str(), "@") {
        return Err(AppError::invalid_request("email must be a valid address"));
    }
    Ok(e)
}

/// A normalised host never ends with a dot, holds no ASCII upper-case
/// letter, and does not depend on the ASCII case of what it came from.
pub proof fn lemma_host_norm_laws(host: Seq<char>)
    ensures
        host_norm(host).len() > 0 ==> host_norm(host).last() != '.',
        forall|i: int| 0 <= i < host_norm(host).len() ==> !is_ascii_upper(#[trigger] host_norm(host)[i]),
        host_norm(ascii_upper(host)) == host_norm(host),
{
    let t = trim_end_char(trimmed(host), '.');
    lemma_trim_end_char_last(trimmed(host), '.');
    lemma_lower_absorbs(t);
    if t.len() > 0 {
        assert(host_norm(host).last() == lower_char(t.last()));
    }
    let up = |c: char| upper_char(c);
    assert forall|c: char| #[trigger] char_is_whitespace(up(c)) == char_is_whitespace(c) by {
        lemma_case_keeps_whitespace(c);
    }
    assert(ascii_upper(host) =~= host.map_values(up));
    lemma_trimmed_map(host, up);
    assert(trimmed(host).map_values(up) =~= ascii_upper(trimmed(host)));
    assert forall|x: char| #[trigger] up(x) == '.' <==> x == '.' by {
        lemma_case_keeps_whitespace(x);
    }
    lemma_trim_end_char_map(trimmed(host), up, '.');
    assert(t.map_values(up) =~= ascii_upper(t));
    lemma_lower_absorbs(t);
}

/// A normalised e-mail address is its own normal form.
pub proof fn lemma_email_rule_idempotent(email: Seq<char>)
    ensures
        email_rule(email) matches Ok(t) ==> email_rule(t) == Ok::<Seq<char>, ErrorV>(t),
{
    let t = ascii_lower(trimmed(email));
    lemma_trimmed_clean(email);
    if t.len() > 0 {
        lemma_case_keeps_whitespace(trimmed(email)[0]);
        lemma_case_keeps_whitespace(trimmed(email).last());
        assert(t[0] == lower_char(trimmed(email)[0]));
        assert(t.last() == lower_char(trimmed(email).last()));
    }
    lemma_trim_clean(t);
    lemma_lower_absorbs(trimmed(email));
}

pub open spec fn token_digest(token: Seq<char>) -> Seq<char> {
    sha256_hex_text(utf8(token))
}

/// The hexadecimal SHA-256 of a session token, the only form a store keeps.
pub fn hash_token(token: &str) -> (h: String)
    ensures
        h@ == token_digest(token@),
{
    sha256_hex_str(token)
}

/// Thirty-two bytes from the operating system's random source
/// (`rand_core::OsRng::fill_bytes`); nothing is stated of their values.
#[verifier::external_body]
fn random_bytes() -> (bytes: Vec<u8>)
    ensures
        bytes@.len() == 32,
{
    let mut bytes = [0u8; 32];
    rand_core::RngCore::fill_bytes(&mut rand_core::OsRng, &mut bytes);
    bytes.to_vec()
}

/// A fresh random token: 64 lower-case hexadecimal digits.
fn random_token() -> (t: String)
    ensures
        exists|bytes: Seq<u8>| bytes.len() == 32 && t@ == hex_lower(bytes),
{
    let bytes = random_bytes();
    hex_encode(bytes.as_slice())
}

/// Whether `password` matches the PHC hash string `hash` under Argon2.
pub uninterp spec fn argon2_verifies(hash: Seq<char>, password: Seq<char>) -> bool;

/// `argon2::Argon2::default()` verifying `password` against the PHC string
/// `hash` (`PasswordHash::new`, then `verify_password`); a string that does
/// not parse verifies nothing.
#[verifier::external_body]
fn argon2_verify(hash: &str, password: &str) -> (ok: bool)
    ensures
        ok == argon2_verifies(hash@, password@),
{
    match argon2::PasswordHash::new(hash) {
        Ok(parsed) => argon2::PasswordVerifier::verify_password(&argon2::Argon2::default(), password.as_bytes(), &parsed).is_ok(),
        Err(_) => false,
    }
}

/// `argon2::Argon2::default()` hashing `password` with a salt from the
/// operating system's random source, as a PHC string.  With the default
/// parameters and the generated 16-byte salt, hashing fails only for a
/// password longer than `u32::MAX` bytes.  The salt is random, so the hash
/// text is not stated: only that it verifies the same password.
#[verifier::external_body]
fn argon2_hash(password: &str) -> (hash: Option<String>)
    ensures
        hash matches Some(h) ==> argon2_verifies(h@, password@),
        utf8(password@).len() <= 0xFFFF_FFFF ==> hash is Some,
{
    let salt = argon2::password_hash::SaltString::generate(&mut rand_core::OsRng);
    match argon2::PasswordHasher::hash_password(&argon2::Argon2::default(), password.as_bytes(), &salt) {
        Ok(hash) => Some(hash.to_string()),
        Err(_) => None,
    }
}

fn hash_password(password: &str) -> (r: Result<String, AppError>)
    ensures
        match r {
            Ok(h) => argon2_verifies(h@, password@),
            Err(e) => e@ == err(ErrorCode::Internal, "password hashing failed"@),
        },
        utf8(password@).len() <= 0xFFFF_FFFF ==> r is Ok,
{
    match argon2_hash(password) {
        Some(h) => Ok(h),
        None => Err(AppError::new(ErrorCode::Internal, "password hashing failed")),
    }
}

// ---------------------------------------------------------------------------
// Operators and tenants.
// ---------------------------------------------------------------------------

#[derive(Debug)]
pub struct Operator {
    pub id: OperatorId,
    pub slug: String,
    pub display_name: String,
    /// Microseconds since the Unix epoch.
    pub created_at: i64,
    pub updated_at: i64,
}

impl Operator {
    /// A new operator with a trimmed slug of at most 100 and a trimmed
    /// display name of at most 200 characters.
    pub fn new(id: OperatorId, slug: String, display_name: String) -> (r: Result<Self, AppError>)
        ensures
            match text_rule("slug"@, slug@, 100) {
                Err(e) => r matches Err(x) && x@ == e,
                Ok(s) => match text_rule("display_name"@, display_name@, 200) {
                    Err(e) => r matches Err(x) && x@ == e,
                    Ok(d) => r matches Ok(o) && o.id == id && o.slug@ == s && o.display_name@ == d
                        && o.created_at == o.updated_at,
                },
            },
    {
        let slug = validate_text("slug", slug, 100)?;
        let display_name = validate_text("display_name", display_name, 200)?;
        let now = utc_now_micros();
        Ok(Operator { id, slug, display_name, created_at: now, updated_at: now })
    }

    pub fn copy(&self) -> (r: Self)
        ensures
            r == *self,
    {
        Operator {
            id: self.id,
            slug: self.slug.clone(),
            display_name: self.display_name.clone(),
            created_at: self.created_at,
            updated_at: self.updated_at,
        }
    }
}

#[derive(Debug)]
pub struct Tenant {
    pub id: TenantId,
    pub operator_id: OperatorId,
    pub slug: String,
    pub display_name: String,
    pub created_at: i64,
    pub updated_at: i64,
}

impl Tenant {
    /// A new tenant of an operator, under the same text rules as operators.
    pub fn new(id: TenantId, operator_id: OperatorId, slug: String, display_name: String) -> (r: Result<Self, AppError>)
        ensures
            match text_rule("slug"@, slug@, 100) {
                Err(e) => r matches Err(x) && x@ == e,
                Ok(s) => match text_rule("display_name"@, display_name@, 200) {
                    Err(e) => r matches Err(x) && x@ == e,
                    Ok(d) => r matches Ok(t) && t.id == id && t.operator_id == operator_id && t.slug@ == s
                        && t.display_name@ == d && t.created_at == t.updated_at,
                },
            },
    {
        let slug = validate_text("slug", slug, 100)?;
        let display_name = validate_text("display_name", display_name, 200)?;
        let now = utc_now_micros();
        Ok(Tenant { id, operator_id, slug, display_name, created_at: now, updated_at: now })
    }
}

// ---------------------------------------------------------------------------
// Users, memberships and sessions.
// ---------------------------------------------------------------------------

#[derive(Debug)]
pub struct User {
    pub id: UserId,
    pub operator_id: OperatorId,
    pub email: String,
    pub display_name: String,
    pub active: bool,
    pub created_at: i64,
    pub updated_at: i64,
    password_hash: String,
}

pub struct UserV {
    pub id: UserId,
    pub operator_id: OperatorId,
    pub email: Seq<char>,
    pub display_name: Seq<char>,
    pub active: bool,
    pub created_at: i64,
    pub updated_at: i64,
    pub password_hash: Seq<char>,
}

impl View for User {
    type V = UserV;

    closed spec fn view(&self) -> UserV {
        UserV {
            id: self.id,
            operator_id: self.operator_id,
            email: self.email@,
            display_name: self.display_name@,
            active: self.active,
            created_at: self.created_at,
            updated_at: self.updated_at,
            password_hash: self.password_hash@,
        }
    }
}

impl User {
    /// A new active user whose password is stored as an Argon2 hash.
    pub fn new(id: UserId, operator_id: OperatorId, email: String, display_name: String, password: &str) -> (r: Result<
        Self,
        AppError,
    >)
        ensures
            match email_rule(email@) {
                Err(e) => r matches Err(x) && x@ == e,
                Ok(em) => match text_rule("display_name"@, display_name@, 200) {
                    Err(e) => r matches Err(x) && x@ == e,
                    Ok(d) => if password@.len() == 0 {
                        r matches Err(x) && x@ == invalid("password must not be empty"@)
                    } else {
                        (match r {
                            Ok(u) => u@.id == id && u@.operator_id == operator_id && u@.email == em && u@.display_name == d
                                && u@.active && u@.created_at == u@.updated_at && argon2_verifies(u@.password_hash, password@),
                            Err(x) => x@ == err(ErrorCode::Internal, "password hashing failed"@),
                        }) && (utf8(password@).len() <= 0xFFFF_FFFF ==> r is Ok)
                    },
                },
            },
    {
        let email = normalize_email(email.as_str())?;
        let display_name = validate_text("display_name", display_name, 200)?;
        if password.unicode_len() == 0 {
            return Err(AppError::invalid_request("password must not be empty"));
        }
        let now = utc_now_micros();
        let password_hash = hash_password(password)?;
        Ok(User { id, operator_id, email, display_name, active: true, created_at: now, updated_at: now, password_hash })
    }

    /// A user read back from storage with its stored password hash.
    pub fn from_password_hash(
        id: UserId,
        operator_id: OperatorId,
        email: String,
        display_name: String,
        active: bool,
        password_hash: String,
        created_at: i64,
        updated_at: i64,
    ) -> (r: Result<Self, AppError>)
        ensures
            match email_rule(email@) {
                Err(e) => r matches Err(x) && x@ == e,
                Ok(em) => match text_rule("display_name"@, display_name@, 200) {
                    Err(e) => r matches Err(x) && x@ == e,
                    Ok(d) => r matches Ok(u) && u@ == (UserV {
                        id,
                        operator_id,
                        email: em,
                        display_name: d,
                        active,
                        created_at,
                        updated_at,
                        password_hash: password_hash@,
                    }),
                },
            },
    {
        let email = normalize_email(email.as_str())?;
        let display_name = validate_text("display_name", display_name, 200)?;
        Ok(User { id, operator_id, email, display_name, active, created_at, updated_at, password_hash })
    }

    pub fn id_of(&self) -> (id: UserId)
        ensures
            id == self@.id,
    {
        self.id
    }

    pub fn email_text(&self) -> (e: String)
        ensures
            e@ == self@.email,
    {
        self.email.clone()
    }

    pub fn display_name_text(&self) -> (d: String)
        ensures
            d@ == self@.display_name,
    {
        self.display_name.clone()
    }

    pub fn is_active(&self) -> (b: bool)
        ensures
            b == self@.active,
    {
        self.active
    }

    pub fn password_hash(&self) -> (h: &str)
        ensures
            h@ == self@.password_hash,
    {
        self.password_hash.as_str()
    }

    /// Whether `password` matches the stored hash.
    pub fn verify_password(&self, password: &str) -> (ok: bool)
        ensures
            ok == argon2_verifies(self@.password_hash, password@),
    {
        argon2_verify(self.password_hash.as_str(), password)
    }

    pub fn copy(&self) -> (r: Self)
        ensures
            r == *self,
    {
        User {
            id: self.id,
            operator_id: self.operator_id,
            email: self.email.clone(),
            display_name: self.display_name.clone(),
            active: self.active,
            created_at: self.created_at,
            updated_at: self.updated_at,
            password_hash: self.password_hash.clone(),
        }
    }
}

#[derive(Debug)]
pub struct Membership {
    pub id: u128,
    pub user_id: UserId,
    pub operator_id: OperatorId,
    pub tenant_id: TenantId,
    pub tenant_slug: String,
    pub tenant_display_name: String,
    pub role: Role,
    pub active: bool,
    pub created_at: i64,
    pub updated_at: i64,
}

pub struct MembershipV {
    pub id: u128,
    pub user_id: UserId,
    pub operator_id: OperatorId,
    pub tenant_id: TenantId,
    pub tenant_slug: Seq<char>,
    pub tenant_display_name: Seq<char>,
    pub role: Role,
    pub active: bool,
    pub created_at: i64,
    pub updated_at: i64,
}

impl View for Membership {
    type V = MembershipV;

    open spec fn view(&self) -> MembershipV {
        MembershipV {
            id: self.id,
            user_id: self.user_id,
            operator_id: self.operator_id,
            tenant_id: self.tenant_id,
            tenant_slug: self.tenant_slug@,
            tenant_display_name: self.tenant_display_name@,
            role: self.role,
            active: self.active,
            created_at: self.created_at,
            updated_at: self.updated_at,
        }
    }
}

impl Membership {
    /// A new active membership of a user in a tenant, without the tenant's
    /// names.
    pub fn new(user_id: UserId, operator_id: OperatorId, tenant_id: TenantId, role: Role) -> (m: Self)
        ensures
            m.user_id == user_id && m.operator_id == operator_id && m.tenant_id == tenant_id && m.role == role && m.active,
            m.tenant_slug@.len() == 0 && m.tenant_display_name@.len() == 0,
            m.created_at == m.updated_at,
    {
        let now = utc_now_micros();
        Membership {
            id: new_uuid(),
            user_id,
            operator_id,
            tenant_id,
            tenant_slug: String::new(),
            tenant_display_name: String::new(),
            role,
            active: true,
            created_at: now,
            updated_at: now,
        }
    }

    pub fn copy(&self) -> (r: Self)
        ensures
            r == *self,
    {
        Membership {
            id: self.id,
            user_id: self.user_id,
            operator_id: self.operator_id,
            tenant_id: self.tenant_id,
            tenant_slug: self.tenant_slug.clone(),
            tenant_display_name: self.tenant_display_name.clone(),
            role: self.role,
            active: self.active,
            created_at: self.created_at,
            updated_at: self.updated_at,
        }
    }
}

#[derive(Debug)]
pub struct Session {
    pub id: SessionId,
    pub operator_id: OperatorId,
    pub user_id: UserId,
    pub created_at: i64,
    pub expires_at: i64,
    pub revoked_at: Option<i64>,
    csrf_token: String,
    token_hash: String,
}

pub struct SessionV {
    pub id: SessionId,
    pub operator_id: OperatorId,
    pub user_id: UserId,
    pub created_at: i64,
    pub expires_at: i64,
    pub revoked_at: Option<i64>,
    pub csrf_token: Seq<char>,
    pub token_hash: Seq<char>,
}

impl View for Session {
    type V = SessionV;

    closed spec fn view(&self) -> SessionV {
        SessionV {
            id: self.id,
            operator_id: self.operator_id,
            user_id: self.user_id,
            created_at: self.created_at,
            expires_at: self.expires_at,
            revoked_at: self.revoked_at,
            csrf_token: self.csrf_token@,
            token_hash: self.token_hash@,
        }
    }
}

/// A session with the only copy of its plain token.
#[derive(Debug)]
pub struct SessionCredentials {
    pub session: Session,
    pub token: String,
}

/// An instant `ttl` seconds after `now`, or the last instant the calendar
/// can hold when that is later.
pub open spec fn expiry(now: int, ttl_seconds: int) -> int {
    if now + ttl_seconds * 1000000 > max_instant() {
        max_instant()
    } else {
        now + ttl_seconds * 1000000
    }
}

pub open spec fn session_active_at(s: SessionV, now: i64) -> bool {
    s.revoked_at is None && s.expires_at > now
}

impl Session {
    /// A fresh session with random token and CSRF token, valid for
    /// `ttl_seconds` from now; the store keeps only the token's digest.
    pub fn new(operator_id: OperatorId, user_id: UserId, ttl_seconds: i64) -> (c: SessionCredentials)
        requires
            0 <= ttl_seconds <= 9_000_000_000_000,
        ensures
            c.session@.operator_id == operator_id,
            c.session@.user_id == user_id,
            c.session@.revoked_at is None,
            c.session@.expires_at == expiry(c.session@.created_at as int, ttl_seconds as int),
            c.session@.token_hash == token_digest(c.token@),
            c.token@.len() == 64,
            c.session@.csrf_token.len() == 64,
    {
        let now = utc_now_micros();
        let token = random_token();
        let csrf = random_token();
        proof {
            let b = choose|bytes: Seq<u8>| bytes.len() == 32 && token@ == hex_lower(bytes);
            crate::digest::lemma_hex_lower_len(b);
            let c = choose|bytes: Seq<u8>| bytes.len() == 32 && csrf@ == hex_lower(bytes);
            crate::digest::lemma_hex_lower_len(c);
        }
        let span: i64 = ttl_seconds * 1000000;
        let expires_at: i64 = if now as i128 + span as i128 > 8210266876799999999 {
            8210266876799999999
        } else {
            now + span
        };
        let token_hash = hash_token(token.as_str());
        let session = Session {
            id: SessionId(new_uuid()),
            operator_id,
            user_id,
            created_at: now,
            expires_at,
            revoked_at: None,
            csrf_token: csrf,
            token_hash,
        };
        SessionCredentials { session, token }
    }

    /// A session read back from storage.
    pub fn with_tokens(
        id: SessionId,
        operator_id: OperatorId,
        user_id: UserId,
        csrf_token: String,
        token_hash: String,
        created_at: i64,
        expires_at: i64,
        revoked_at: Option<i64>,
    ) -> (s: Self)
        ensures
            s@ == (SessionV {
                id,
                operator_id,
                user_id,
                created_at,
                expires_at,
                revoked_at,
                csrf_token: csrf_token@,
                token_hash: token_hash@,
            }),
    {
        Session { id, operator_id, user_id, created_at, expires_at, revoked_at, csrf_token, token_hash }
    }

    pub fn user_of(&self) -> (id: UserId)
        ensures
            id == self@.user_id,
    {
        self.user_id
    }

    pub fn csrf_token(&self) -> (t: &str)
        ensures
            t@ == self@.csrf_token,
    {
        self.csrf_token.as_str()
    }

    pub fn token_hash(&self) -> (t: &str)
        ensures
            t@ == self@.token_hash,
    {
        self.token_hash.as_str()
    }

    /// Not revoked and not yet expired at `now`.
    pub fn is_active_at(&self, now: i64) -> (b: bool)
        ensures
            b == session_active_at(self@, now),
    {
        self.revoked_at.is_none() && self.expires_at > now
    }

    pub fn copy(&self) -> (r: Self)
        ensures
            r == *self,
    {
        Session {
            id: self.id,
            operator_id: self.operator_id,
            user_id: self.user_id,
            created_at: self.created_at,
            expires_at: self.expires_at,
            revoked_at: self.revoked_at,
            csrf_token: self.csrf_token.clone(),
            token_hash: self.token_hash.clone(),
        }
    }
}

/// A session with its revocation instant set.
pub closed spec fn with_revoked(s: Session, now: i64) -> Session {
    Session { revoked_at: Some(now), ..s }
}

/// Revoking changes the revocation instant and nothing else.
pub proof fn lemma_with_revoked(s: Session, now: i64)
    ensures
        with_revoked(s, now)@ == (SessionV { revoked_at: Some(now), ..s@ }),
{
}

/// A revoked session is active at no instant.
pub proof fn lemma_revoked_inactive(s: SessionV, now: i64)
    requires
        s.revoked_at is Some,
    ensures
        !session_active_at(s, now),
{
}

// ---------------------------------------------------------------------------
// The in-memory authentication store.
// ---------------------------------------------------------------------------

/// The first place of `s` that `p` accepts.
pub open spec fn first_where<T>(s: Seq<T>, p: spec_fn(T) -> bool) -> Option<int>
    decreases s.len(),
{
    if s.len() == 0 {
        None
    } else if p(s[0]) {
        Some(0)
    } else {
        match first_where(s.drop_first(), p) {
            Some(i) => Some(i + 1),
            None => None,
        }
    }
}

/// The first entry of `s` that `p` accepts.
pub open spec fn first_of<T>(s: Seq<T>, p: spec_fn(T) -> bool) -> Option<T> {
    match first_where(s, p) {
        Some(i) => Some(s[i]),
        None => None,
    }
}

/// `first_where` finds `i` when no earlier place is accepted, and nothing
/// when no place is.
pub proof fn lemma_first_where<T>(s: Seq<T>, p: spec_fn(T) -> bool, i: int)
    requires
        0 <= i <= s.len(),
        forall|j: int| 0 <= j < i ==> !p(#[trigger] s[j]),
    ensures
        i < s.len() && p(s[i]) ==> first_where(s, p) == Some(i),
        i == s.len() ==> first_where(s, p) is None,
        first_where(s, p) matches Some(k) ==> 0 <= k < s.len() && p(s[k]),
    decreases s.len(),
{
    if s.len() > 0 {
        let t = s.drop_first();
        if i > 0 {
            assert(!p(s[0]));
            assert forall|j: int| 0 <= j < i - 1 implies !p(#[trigger] t[j]) by {
                assert(t[j] == s[j + 1]);
            }
            lemma_first_where(t, p, i - 1);
        } else {
            lemma_first_where(t, p, 0);
        }
    }
}

/// The entries of `s` that satisfy `p`, in order.
pub open spec fn keep<T>(s: Seq<T>, p: spec_fn(T) -> bool) -> Seq<T>
    decreases s.len(),
{
    if s.len() == 0 {
        Seq::empty()
    } else if p(s.last()) {
        keep(s.drop_last(), p).push(s.last())
    } else {
        keep(s.drop_last(), p)
    }
}

/// A host name and the operator it serves.
#[derive(Debug)]
pub struct HostEntry {
    pub host: String,
    pub operator_id: OperatorId,
}

/// An explicitly non-durable authentication store for loopback development.
#[derive(Debug)]
pub struct MemoryAuthRepository {
    operators: Vec<Operator>,
    hosts: Vec<HostEntry>,
    users: Vec<User>,
    memberships: Vec<Membership>,
    sessions: Vec<Session>,
}

pub struct AuthStoreV {
    pub operators: Seq<Operator>,
    pub hosts: Seq<(Seq<char>, OperatorId)>,
    pub users: Seq<User>,
    pub memberships: Seq<Membership>,
    pub sessions: Seq<Session>,
}

impl View for MemoryAuthRepository {
    type V = AuthStoreV;

    closed spec fn view(&self) -> AuthStoreV {
        AuthStoreV {
            operators: self.operators@,
            hosts: self.hosts@.map_values(|e: HostEntry| (e.host@, e.operator_id)),
            users: self.users@,
            memberships: self.memberships@,
            sessions: self.sessions@,
        }
    }
}

pub open spec fn operator_is(id: OperatorId) -> spec_fn(Operator) -> bool {
    |o: Operator| o.id == id
}

pub open spec fn host_is(h: Seq<char>) -> spec_fn((Seq<char>, OperatorId)) -> bool {
    |e: (Seq<char>, OperatorId)| e.0 == h
}

pub open spec fn user_is(id: UserId) -> spec_fn(User) -> bool {
    |u: User| u@.id == id
}

pub open spec fn login_user(operator_id: OperatorId, email: Seq<char>) -> spec_fn(User) -> bool {
    |u: User| u@.operator_id == operator_id && u@.email == email && u@.active
}

pub open spec fn membership_of(user_id: UserId, operator_id: OperatorId) -> spec_fn(Membership) -> bool {
    |m: Membership| m.user_id == user_id && m.operator_id == operator_id && m.active
}

pub open spec fn session_for(operator_id: OperatorId, token: Seq<char>) -> spec_fn(Session) -> bool {
    |x: Session| x@.operator_id == operator_id && x@.token_hash == token_digest(token)
}

pub open spec fn session_is(id: SessionId) -> spec_fn(Session) -> bool {
    |x: Session| x@.id == id
}

/// `s` with `x` stored under its id: in place of the first entry with that
/// id, or added at the end.
pub open spec fn put_session(s: Seq<Session>, x: Session) -> Seq<Session> {
    match first_where(s, session_is(x@.id)) {
        Some(i) => s.update(i, x),
        None => s.push(x),
    }
}

/// The host table after the hosts of a new operator are added one by one;
/// `false` when an empty or taken host stopped it, with the hosts before it
/// already added.
pub open spec fn add_hosts(hs: Seq<(Seq<char>, OperatorId)>, id: OperatorId, hosts: Seq<Seq<char>>) -> (Seq<(Seq<char>, OperatorId)>, bool)
    decreases hosts.len(),
{
    if hosts.len() == 0 {
        (hs, true)
    } else {
        let h = host_norm(hosts[0]);
        if h.len() == 0 || first_where(hs, host_is(h)) is Some {
            (hs, false)
        } else {
            add_hosts(hs.push((h, id)), id, hosts.drop_first())
        }
    }
}

/// What signing in answers: the active user of the operator with the
/// normalised address, the operator and the user's active memberships, when
/// the user has one and the password matches.
pub open spec fn login_outcome(s: AuthStoreV, operator_id: OperatorId, email: Seq<char>, password: Seq<char>, r: Result<Option<LoginIdentity>, AppError>) -> bool {
    match email_rule(email) {
        Err(e) => r matches Err(x) && x@ == e,
        Ok(em) => match first_of(s.users, login_user(operator_id, em)) {
            None => r matches Ok(None),
            Some(u) => match first_of(s.operators, operator_is(operator_id)) {
                None => r matches Ok(None),
                Some(o) => {
                    let ms = keep(s.memberships, membership_of(u@.id, operator_id));
                    if ms.len() == 0 || !argon2_verifies(u@.password_hash, password) {
                        r matches Ok(None)
                    } else {
                        r matches Ok(Some(id)) && id.operator == o && id.user == u && id.memberships@ == ms
                    }
                },
            },
        },
    }
}

/// A user, its operator and its active memberships.
#[derive(Debug)]
pub struct LoginIdentity {
    pub operator: Operator,
    pub user: User,
    pub memberships: Vec<Membership>,
}

/// What opening a session does: for an active user of the operator, a new
/// unrevoked session expiring `ttl_seconds` after it was created, stored
/// under the digest of a fresh 64-character token; otherwise nothing.
pub open spec fn session_outcome(
    old: AuthStoreV,
    new: AuthStoreV,
    operator_id: OperatorId,
    user_id: UserId,
    ttl_seconds: i64,
    r: Result<SessionCredentials, AppError>,
) -> bool {
    match first_of(old.users, user_is(user_id)) {
        Some(u) if u@.operator_id == operator_id && u@.active => r matches Ok(c) && c.session@.operator_id == operator_id
            && c.session@.user_id == user_id && c.session@.revoked_at is None && c.session@.expires_at == expiry(
            c.session@.created_at as int,
            ttl_seconds as int,
        ) && c.session@.token_hash == token_digest(c.token@) && c.token@.len() == 64 && new == (AuthStoreV {
            sessions: put_session(old.sessions, c.session),
            ..old
        }),
        _ => r matches Err(e) && e@ == err(ErrorCode::Unauthorized, "user does not exist"@) && new == old,
    }
}

impl MemoryAuthRepository {
    pub fn new() -> (s: Self)
        ensures
            s@.operators.len() == 0 && s@.hosts.len() == 0 && s@.users.len() == 0 && s@.memberships.len() == 0
                && s@.sessions.len() == 0,
    {
        let s = MemoryAuthRepository {
            operators: Vec::new(),
            hosts: Vec::new(),
            users: Vec::new(),
            memberships: Vec::new(),
            sessions: Vec::new(),
        };
        assert(s@.hosts.len() == 0);
        s
    }

    /// The development store: the development operator serving the local
    /// hosts, its demo user with `password`, and the user's admin membership
    /// of the development tenant.
    pub fn development_with_password(password: &str) -> (r: Result<Self, AppError>)
        ensures
            password@.len() == 0 ==> (r matches Err(e) && e@ == invalid("password must not be empty"@)),
            password@.len() > 0 && utf8(password@).len() <= 0xFFFF_FFFF ==> r is Ok,
            match r {
                Ok(s) => {
                    &&& password@.len() > 0
                    &&& s@.operators.len() == 1 && s@.operators[0].id == OperatorId(DEVELOPMENT_OPERATOR_UUID)
                    &&& s@.operators[0].slug@ == "memeloop"@
                    &&& s@.hosts == seq![
                        ("localhost"@, OperatorId(DEVELOPMENT_OPERATOR_UUID)),
                        ("localhost:5173"@, OperatorId(DEVELOPMENT_OPERATOR_UUID)),
                        ("localhost:8080"@, OperatorId(DEVELOPMENT_OPERATOR_UUID)),
                        ("127.0.0.1"@, OperatorId(DEVELOPMENT_OPERATOR_UUID)),
                        ("127.0.0.1:5173"@, OperatorId(DEVELOPMENT_OPERATOR_UUID)),
                        ("127.0.0.1:8080"@, OperatorId(DEVELOPMENT_OPERATOR_UUID)),
                    ]
                    &&& s@.users.len() == 1
                    &&& s@.users[0]@.id == UserId(DEVELOPMENT_USER_UUID)
                    &&& s@.users[0]@.operator_id == OperatorId(DEVELOPMENT_OPERATOR_UUID)
                    &&& s@.users[0]@.email == development_user_email()
                    &&& s@.users[0]@.display_name == "Local Demo"@
                    &&& s@.users[0]@.active
                    &&& argon2_verifies(s@.users[0]@.password_hash, password@)
                    &&& s@.memberships.len() == 1
                    &&& s@.memberships[0].user_id == UserId(DEVELOPMENT_USER_UUID)
                    &&& s@.memberships[0].operator_id == OperatorId(DEVELOPMENT_OPERATOR_UUID)
                    &&& s@.memberships[0].tenant_id == TenantId(DEVELOPMENT_TENANT_UUID)
                    &&& s@.memberships[0].role == Role::CustomerAdmin && s@.memberships[0].active
                    &&& s@.memberships[0].tenant_slug@ == "demo"@
                    &&& s@.memberships[0].tenant_display_name@ == "Local Demo Tenant"@
                    &&& s@.sessions.len() == 0
                },
                Err(e) => password@.len() == 0 || e@ == err(ErrorCode::Internal, "password hashing failed"@),
            },
    {
        if password.unicode_len() == 0 {
            return Err(AppError::invalid_request("password must not be empty"));
        }
        let password_hash = hash_password(password)?;
        let now = utc_now_micros();
        let operator_id = OperatorId(DEVELOPMENT_OPERATOR_UUID);
        let operator = Operator {
            id: operator_id,
            slug: String::from_str("memeloop"),
            display_name: String::from_str("模因循环"),
            created_at: now,
            updated_at: now,
        };
        let user = User {
            id: UserId(DEVELOPMENT_USER_UUID),
            operator_id,
            email: String::from_str("demo@localhost"),
            display_name: String::from_str("Local Demo"),
            active: true,
            created_at: now,
            updated_at: now,
            password_hash,
        };
        let mut membership = Membership::new(user.id, operator_id, TenantId(DEVELOPMENT_TENANT_UUID), Role::CustomerAdmin);
        membership.tenant_slug = String::from_str("demo");
        membership.tenant_display_name = String::from_str("Local Demo Tenant");
        let mut hosts: Vec<HostEntry> = Vec::new();
        hosts.push(HostEntry { host: String::from_str("localhost"), operator_id });
        hosts.push(HostEntry { host: String::from_str("localhost:5173"), operator_id });
        hosts.push(HostEntry { host: String::from_str("localhost:8080"), operator_id });
        hosts.push(HostEntry { host: String::from_str("127.0.0.1"), operator_id });
        hosts.push(HostEntry { host: String::from_str("127.0.0.1:5173"), operator_id });
        hosts.push(HostEntry { host: String::from_str("127.0.0.1:8080"), operator_id });
        let mut operators: Vec<Operator> = Vec::new();
        operators.push(operator);
        let mut users: Vec<User> = Vec::new();
        users.push(user);
        let mut memberships: Vec<Membership> = Vec::new();
        memberships.push(membership);
        let s = MemoryAuthRepository { operators, hosts, users, memberships, sessions: Vec::new() };
        assert(s@.hosts =~= seq![
            ("localhost"@, operator_id),
            ("localhost:5173"@, operator_id),
            ("localhost:8080"@, operator_id),
            ("127.0.0.1"@, operator_id),
            ("127.0.0.1:5173"@, operator_id),
            ("127.0.0.1:8080"@, operator_id),
        ]);
        Ok(s)
    }

    fn host_position(&self, h: &str) -> (r: Option<usize>)
        ensures
            match r {
                Some(i) => i < self@.hosts.len() && first_where(self@.hosts, host_is(h@)) == Some(i as int),
                None => first_where(self@.hosts, host_is(h@)) is None,
            },
    {
        let ghost hs = self@.hosts;
        let mut i: usize = 0;
        while i < self.hosts.len()
            invariant
                i <= self.hosts.len(),
                hs == self@.hosts,
                hs.len() == self.hosts@.len(),
                forall|j: int| 0 <= j < i ==> !host_is(h@)(#[trigger] hs[j]),
            decreases self.hosts.len() - i,
        {
            assert(hs[i as int] == (self.hosts@[i as int].host@, self.hosts@[i as int].operator_id));
            if str_eq(self.hosts[i].host.as_str(), h) {
                proof {
                    lemma_first_where(hs, host_is(h@), i as int);
                }
                return Some(i);
            }
            i += 1;
        }
        proof {
            lemma_first_where(hs, host_is(h@), i as int);
        }
        None
    }

    fn operator_position(&self, id: OperatorId) -> (r: Option<usize>)
        ensures
            match r {
                Some(i) => i < self@.operators.len() && first_where(self@.operators, operator_is(id)) == Some(i as int),
                None => first_where(self@.operators, operator_is(id)) is None,
            },
    {
        let ghost os = self@.operators;
        let mut i: usize = 0;
        while i < self.operators.len()
            invariant
                i <= self.operators.len(),
                os == self@.operators,
                forall|j: int| 0 <= j < i ==> !operator_is(id)(#[trigger] os[j]),
            decreases self.operators.len() - i,
        {
            if self.operators[i].id == id {
                proof {
                    lemma_first_where(os, operator_is(id), i as int);
                }
                return Some(i);
            }
            i += 1;
        }
        proof {
            lemma_first_where(os, operator_is(id), i as int);
        }
        None
    }

    fn user_position(&self, id: UserId) -> (r: Option<usize>)
        ensures
            match r {
                Some(i) => i < self@.users.len() && first_where(self@.users, user_is(id)) == Some(i as int),
                None => first_where(self@.users, user_is(id)) is None,
            },
    {
        let ghost us = self@.users;
        let mut i: usize = 0;
        while i < self.users.len()
            invariant
                i <= self.users.len(),
                us == self@.users,
                forall|j: int| 0 <= j < i ==> !user_is(id)(#[trigger] us[j]),
            decreases self.users.len() - i,
        {
            if self.users[i].id == id {
                proof {
                    lemma_first_where(us, user_is(id), i as int);
                }
                return Some(i);
            }
            i += 1;
        }
        proof {
            lemma_first_where(us, user_is(id), i as int);
        }
        None
    }

    fn login_position(&self, operator_id: OperatorId, email: &str) -> (r: Option<usize>)
        ensures
            match r {
                Some(i) => i < self@.users.len() && first_where(self@.users, login_user(operator_id, email@)) == Some(i as int),
                None => first_where(self@.users, login_user(operator_id, email@)) is None,
            },
    {
        let ghost us = self@.users;
        let ghost p = login_user(operator_id, email@);
        let mut i: usize = 0;
        while i < self.users.len()
            invariant
                i <= self.users.len(),
                us == self@.users,
                p == login_user(operator_id, email@),
                forall|j: int| 0 <= j < i ==> !p(#[trigger] us[j]),
            decreases self.users.len() - i,
        {
            let u = &self.users[i];
            if u.operator_id == operator_id && str_eq(u.email.as_str(), email) && u.active {
                proof {
                    lemma_first_where(us, p, i as int);
                }
                return Some(i);
            }
            i += 1;
        }
        proof {
            lemma_first_where(us, p, i as int);
        }
        None
    }

    fn session_position(&self, id: SessionId) -> (r: Option<usize>)
        ensures
            match r {
                Some(i) => i < self@.sessions.len() && first_where(self@.sessions, session_is(id)) == Some(i as int),
                None => first_where(self@.sessions, session_is(id)) is None,
            },
    {
        let ghost ss = self@.sessions;
        let ghost p = session_is(id);
        let mut i: usize = 0;
        while i < self.sessions.len()
            invariant
                i <= self.sessions.len(),
                ss == self@.sessions,
                p == session_is(id),
                forall|j: int| 0 <= j < i ==> !p(#[trigger] ss[j]),
            decreases self.sessions.len() - i,
        {
            if self.sessions[i].id == id {
                proof {
                    lemma_first_where(ss, p, i as int);
                }
                return Some(i);
            }
            i += 1;
        }
        proof {
            lemma_first_where(ss, p, i as int);
        }
        None
    }

    fn memberships_of(&self, user_id: UserId, operator_id: OperatorId) -> (r: Vec<Membership>)
        ensures
            r@ == keep(self@.memberships, membership_of(user_id, operator_id)),
    {
        let ghost ms = self@.memberships;
        let ghost p = membership_of(user_id, operator_id);
        let mut out: Vec<Membership> = Vec::new();
        let mut i: usize = 0;
        assert(ms.take(0) =~= Seq::<Membership>::empty());
        while i < self.memberships.len()
            invariant
                i <= self.memberships.len(),
                ms == self@.memberships,
                p == membership_of(user_id, operator_id),
                out@ == keep(ms.take(i as int), p),
            decreases self.memberships.len() - i,
        {
            proof {
                assert(ms.take(i + 1).drop_last() =~= ms.take(i as int));
                assert(ms.take(i + 1).last() == ms[i as int]);
            }
            let m = &self.memberships[i];
            if m.user_id == user_id && m.operator_id == operator_id && m.active {
                out.push(m.copy());
            }
            i += 1;
        }
        assert(ms.take(ms.len() as int) =~= ms);
        out
    }

    /// The operator that serves `host`, matched by its normalised name.
    pub fn operator_for_host(&self, host: &str) -> (r: Result<Option<Operator>, AppError>)
        ensures
            r matches Ok(found) && found == match first_of(self@.hosts, host_is(host_norm(host@))) {
                Some(e) => first_of(self@.operators, operator_is(e.1)),
                None => None,
            },
    {
        let h = normalize_host(host);
        match self.host_position(h.as_str()) {
            None => Ok(None),
            Some(i) => {
                let id = self.hosts[i].operator_id;
                assert(self@.hosts[i as int].1 == id);
                match self.operator_position(id) {
                    Some(k) => Ok(Some(self.operators[k].copy())),
                    None => Ok(None),
                }
            },
        }
    }

    /// Signs in by operator, e-mail address and password.
    pub fn authenticate(&self, operator_id: OperatorId, email: &str, password: &str) -> (r: Result<Option<LoginIdentity>, AppError>)
        ensures
            login_outcome(self@, operator_id, email@, password@, r),
    {
        let normalized = normalize_email(email)?;
        let k = match self.login_position(operator_id, normalized.as_str()) {
            Some(k) => k,
            None => return Ok(None),
        };
        let user = self.users[k].copy();
        let operator = match self.operator_position(operator_id) {
            Some(o) => self.operators[o].copy(),
            None => return Ok(None),
        };
        let memberships = self.memberships_of(user.id, operator_id);
        if memberships.len() == 0 || !user.verify_password(password) {
            return Ok(None);
        }
        Ok(Some(LoginIdentity { operator, user, memberships }))
    }

    /// The operator's session whose token digest is that of `token`.
    pub fn find_session(&self, operator_id: OperatorId, token: &str) -> (r: Result<Option<Session>, AppError>)
        ensures
            r matches Ok(found) && found == first_of(self@.sessions, session_for(operator_id, token@)),
    {
        let digest = hash_token(token);
        let ghost ss = self@.sessions;
        let ghost p = session_for(operator_id, token@);
        let mut i: usize = 0;
        while i < self.sessions.len()
            invariant
                i <= self.sessions.len(),
                ss == self@.sessions,
                p == session_for(operator_id, token@),
                digest@ == token_digest(token@),
                forall|j: int| 0 <= j < i ==> !p(#[trigger] ss[j]),
            decreases self.sessions.len() - i,
        {
            let x = &self.sessions[i];
            if x.operator_id == operator_id && str_eq(x.token_hash.as_str(), digest.as_str()) {
                proof {
                    lemma_first_where(ss, p, i as int);
                }
                return Ok(Some(x.copy()));
            }
            i += 1;
        }
        proof {
            lemma_first_where(ss, p, i as int);
        }
        Ok(None)
    }

    /// The operator's user with this id.
    pub fn find_user(&self, operator_id: OperatorId, user_id: UserId) -> (r: Result<Option<User>, AppError>)
        ensures
            r matches Ok(found) && found == match first_of(self@.users, user_is(user_id)) {
                Some(u) => if u@.operator_id == operator_id {
                    Some(u)
                } else {
                    None
                },
                None => None,
            },
    {
        match self.user_position(user_id) {
            Some(i) => {
                let u = &self.users[i];
                if u.operator_id == operator_id {
                    Ok(Some(u.copy()))
                } else {
                    Ok(None)
                }
            },
            None => Ok(None),
        }
    }

    /// The user's active memberships with the operator, in the order they
    /// were added.
    pub fn memberships(&self, user_id: UserId, operator_id: OperatorId) -> (r: Result<Vec<Membership>, AppError>)
        ensures
            r matches Ok(v) && v@ == keep(self@.memberships, membership_of(user_id, operator_id)),
    {
        Ok(self.memberships_of(user_id, operator_id))
    }

    /// Opens a session for an active user of the operator.
    pub fn create_session(&mut self, operator_id: OperatorId, user_id: UserId, ttl_seconds: i64) -> (r: Result<
        SessionCredentials,
        AppError,
    >)
        requires
            0 <= ttl_seconds <= 9_000_000_000_000,
        ensures
            session_outcome(old(self)@, final(self)@, operator_id, user_id, ttl_seconds, r),
    {
        let ok = match self.user_position(user_id) {
            Some(i) => self.users[i].operator_id == operator_id && self.users[i].active,
            None => false,
        };
        if !ok {
            return Err(AppError::unauthorized("user does not exist"));
        }
        let credentials = Session::new(operator_id, user_id, ttl_seconds);
        let stored = credentials.session.copy();
        let ghost sv = stored;
        match self.session_position(stored.id) {
            Some(k) => {
                self.sessions.set(k, stored);
            },
            None => {
                self.sessions.push(stored);
            },
        }
        Ok(credentials)
    }

    /// Marks the operator's session as revoked now; other sessions are left
    /// alone.
    pub fn revoke_session(&mut self, operator_id: OperatorId, session_id: SessionId) -> (r: Result<(), AppError>)
        ensures
            r is Ok,
            match first_where(old(self)@.sessions, session_is(session_id)) {
                Some(i) if old(self)@.sessions[i]@.operator_id == operator_id => exists|now: i64|
                    final(self)@ == (AuthStoreV {
                        sessions: old(self)@.sessions.update(i, #[trigger] with_revoked(old(self)@.sessions[i], now)),
                        ..old(self)@
                    }),
                _ => final(self)@ == old(self)@,
            },
    {
        let ghost ss = self@.sessions;
        match self.session_position(session_id) {
            Some(i) => {
                if self.sessions[i].operator_id == operator_id {
                    let now = utc_now_micros();
                    let old_session = self.sessions[i].copy();
                    let revoked = Session { revoked_at: Some(now), ..old_session };
                    self.sessions.set(i, revoked);
                    assert(self@.sessions =~= ss.update(i as int, with_revoked(ss[i as int], now)));
                }
                Ok(())
            },
            None => Ok(()),
        }
    }

    /// Adds an operator and the hosts it serves.  A taken operator id is
    /// refused; hosts are added one by one, and an empty or taken host stops
    /// the insert with the hosts before it already added.
    pub fn insert_operator(&mut self, operator: Operator, hosts: &Vec<String>) -> (r: Result<(), AppError>)
        ensures
            if first_where(old(self)@.operators, operator_is(operator.id)) is Some {
                unit_result(r) == Err::<(), ErrorV>(err(ErrorCode::Conflict, "operator already exists"@)) && final(self)@
                    == old(self)@
            } else {
                let added = add_hosts(old(self)@.hosts, operator.id, hosts@.map_values(|h: String| h@));
                if added.1 {
                    r is Ok && final(self)@ == (AuthStoreV {
                        hosts: added.0,
                        operators: old(self)@.operators.push(operator),
                        ..old(self)@
                    })
                } else {
                    unit_result(r) == Err::<(), ErrorV>(err(ErrorCode::Conflict, "operator host already exists"@))
                        && final(self)@ == (AuthStoreV { hosts: added.0, ..old(self)@ })
                }
            },
    {
        if self.operator_position(operator.id).is_some() {
            return Err(AppError::conflict("operator already exists"));
        }
        let ghost s0 = self@;
        let ghost all = hosts@.map_values(|h: String| h@);
        let ghost target = add_hosts(s0.hosts, operator.id, all);
        let mut i: usize = 0;
        assert(all.skip(0) =~= all);
        while i < hosts.len()
            invariant
                i <= hosts.len(),
                all == hosts@.map_values(|h: String| h@),
                target == add_hosts(s0.hosts, operator.id, all),
                s0 == old(self)@,
                first_where(s0.operators, operator_is(operator.id)) is None,
                add_hosts(self@.hosts, operator.id, all.skip(i as int)) == target,
                self@.operators == s0.operators && self@.users == s0.users && self@.memberships == s0.memberships
                    && self@.sessions == s0.sessions,
            decreases hosts.len() - i,
        {
            let h = normalize_host(hosts[i].as_str());
            proof {
                assert(all.skip(i as int)[0] == hosts@[i as int]@);
                assert(all.skip(i as int).drop_first() =~= all.skip(i + 1));
            }
            if h.unicode_len() == 0 || self.host_position(h.as_str()).is_some() {
                assert(add_hosts(self@.hosts, operator.id, all.skip(i as int)) == (self@.hosts, false));
                assert(self@ == (AuthStoreV { hosts: target.0, ..s0 }));
                return Err(AppError::conflict("operator host already exists"));
            }
            let ghost before = self@.hosts;
            let ghost hv = h@;
            self.hosts.push(HostEntry { host: h, operator_id: operator.id });
            assert(self@.hosts =~= before.push((hv, operator.id)));
            i += 1;
        }
        assert(all.skip(hosts.len() as int) =~= Seq::<Seq<char>>::empty());
        let ghost ov = operator;
        self.operators.push(operator);
        assert(self@ == (AuthStoreV { hosts: target.0, operators: s0.operators.push(ov), ..s0 }));
        Ok(())
    }

    /// Adds a user.  An address already used with the operator is refused;
    /// a taken id is refused too, after the stored user was replaced, as the
    /// keyed table of the reference store does.
    pub fn insert_user(&mut self, user: User) -> (r: Result<(), AppError>)
        ensures
            if exists|i: int| 0 <= i < old(self)@.users.len() && (#[trigger] old(self)@.users[i])@.operator_id == user@.operator_id
                && old(self)@.users[i]@.email == user@.email {
                unit_result(r) == Err::<(), ErrorV>(err(ErrorCode::Conflict, "user email already exists for operator"@))
                    && final(self)@ == old(self)@
            } else {
                match first_where(old(self)@.users, user_is(user@.id)) {
                    Some(i) => unit_result(r) == Err::<(), ErrorV>(err(ErrorCode::Conflict, "user already exists"@))
                        && final(self)@ == (AuthStoreV { users: old(self)@.users.update(i, user), ..old(self)@ }),
                    None => r is Ok && final(self)@ == (AuthStoreV { users: old(self)@.users.push(user), ..old(self)@ }),
                }
            },
    {
        let ghost us = self@.users;
        let mut i: usize = 0;
        while i < self.users.len()
            invariant
                i <= self.users.len(),
                us == self@.users,
                forall|j: int| 0 <= j < i ==> !((#[trigger] us[j])@.operator_id == user@.operator_id && us[j]@.email
                    == user@.email),
            decreases self.users.len() - i,
        {
            if self.users[i].operator_id == user.operator_id && str_eq(self.users[i].email.as_str(), user.email.as_str()) {
                return Err(AppError::conflict("user email already exists for operator"));
            }
            i += 1;
        }
        let ghost uv = user;
        match self.user_position(user.id) {
            Some(k) => {
                self.users.set(k, user);
                Err(AppError::conflict("user already exists"))
            },
            None => {
                self.users.push(user);
                Ok(())
            },
        }
    }

    /// Adds a membership of a known user with a known operator, once per
    /// user, operator and tenant.
    pub fn insert_membership(&mut self, membership: Membership) -> (r: Result<(), AppError>)
        ensures
            if first_where(old(self)@.users, user_is(membership.user_id)) is None || first_where(
                old(self)@.operators,
                operator_is(membership.operator_id),
            ) is None {
                unit_result(r) == Err::<(), ErrorV>(invalid("membership references an unknown identity"@)) && final(self)@
                    == old(self)@
            } else if exists|i: int| 0 <= i < old(self)@.memberships.len() && (#[trigger] old(self)@.memberships[i]).user_id
                == membership.user_id && old(self)@.memberships[i].operator_id == membership.operator_id
                && old(self)@.memberships[i].tenant_id == membership.tenant_id {
                unit_result(r) == Err::<(), ErrorV>(err(ErrorCode::Conflict, "membership already exists"@)) && final(self)@
                    == old(self)@
            } else {
                r is Ok && final(self)@ == (AuthStoreV { memberships: old(self)@.memberships.push(membership), ..old(self)@ })
            },
    {
        if self.user_position(membership.user_id).is_none() || self.operator_position(membership.operator_id).is_none() {
            return Err(AppError::invalid_request("membership references an unknown identity"));
        }
        let ghost ms = self@.memberships;
        let mut i: usize = 0;
        while i < self.memberships.len()
            invariant
                i <= self.memberships.len(),
                ms == self@.memberships,
                self@ == old(self)@,
                first_where(old(self)@.users, user_is(membership.user_id)) is Some,
                first_where(old(self)@.operators, operator_is(membership.operator_id)) is Some,
                forall|j: int| 0 <= j < i ==> !((#[trigger] ms[j]).user_id == membership.user_id && ms[j].operator_id
                    == membership.operator_id && ms[j].tenant_id == membership.tenant_id),
            decreases self.memberships.len() - i,
        {
            let m = &self.memberships[i];
            if m.user_id == membership.user_id && m.operator_id == membership.operator_id && m.tenant_id
                == membership.tenant_id {
                assert(ms[i as int] == *m);
                return Err(AppError::conflict("membership already exists"));
            }
            i += 1;
        }
        self.memberships.push(membership);
        Ok(())
    }
}

/// A session just opened is what its token finds, when no earlier session of
/// the operator has the same token digest.
pub proof fn lemma_created_session_found(
    old: AuthStoreV,
    new: AuthStoreV,
    operator_id: OperatorId,
    token: Seq<char>,
    session: Session,
)
    requires
        session@.operator_id == operator_id,
        session@.token_hash == token_digest(token),
        new.sessions == put_session(old.sessions, session),
        first_where(old.sessions, session_for(operator_id, token)) is None,
    ensures
        first_of(new.sessions, session_for(operator_id, token)) == Some(session),
{
    let p = session_for(operator_id, token);
    let t = new.sessions;
    let n = old.sessions.len() as int;
    lemma_first_where(old.sessions, session_is(session@.id), 0);
    match first_where(old.sessions, session_is(session@.id)) {
        Some(i) => {
            assert forall|j: int| 0 <= j < i implies !p(#[trigger] t[j]) by {
                assert(t[j] == old.sessions[j]);
                lemma_no_match(old.sessions, p, j);
            }
            assert(t[i] == session);
            lemma_first_where(t, p, i);
        },
        None => {
            assert forall|j: int| 0 <= j < n implies !p(#[trigger] t[j]) by {
                assert(t[j] == old.sessions[j]);
                lemma_no_match(old.sessions, p, j);
            }
            assert(t[n] == session);
            lemma_first_where(t, p, n);
        },
    }
}

/// When `first_where` finds nothing, no place is accepted.
pub proof fn lemma_no_match<T>(s: Seq<T>, p: spec_fn(T) -> bool, j: int)
    requires
        first_where(s, p) is None,
        0 <= j < s.len(),
    ensures
        !p(s[j]),
    decreases s.len(),
{
    if p(s[0]) {
    } else if j > 0 {
        assert(s.drop_first()[j - 1] == s[j]);
        lemma_no_match(s.drop_first(), p, j - 1);
    }
}

/// A session is found only by its own operator.
pub proof fn lemma_session_of_operator(s: AuthStoreV, operator_id: OperatorId, token: Seq<char>)
    ensures
        first_of(s.sessions, session_for(operator_id, token)) matches Some(x) ==> x@.operator_id == operator_id,
{
    lemma_first_where(s.sessions, session_for(operator_id, token), 0);
}

} // verus!
