//! Signing in and out: the checks a login request passes in order, the
//! session it opens, and the cookies that carry or clear it.

use vstd::prelude::*;
use vstd::string::StringExecFns;
use crate::auth::{
    first_of, host_is, host_norm, login_outcome, operator_is, session_outcome, AuthStoreV, LoginIdentity,
    MemoryAuthRepository, Operator, SessionCredentials, DEFAULT_SESSION_TTL_SECS,
};
use crate::context::{host_from_headers, host_rule, origin_rule, validate_origin_headers_with_config, HeaderField, OriginConfig};
use crate::error::{err, AppError, ErrorCode, ErrorV};

verus! {

/// The session cookie that carries `token`: the production cookie, marked
/// secure, in a durable deployment, else the development one.
pub open spec fn cookie_text(token: Seq<char>, durable: bool) -> Seq<char> {
    (if durable {
        "__Host-geo_session"@
    } else {
        "geo_dev_session"@
    }) + "="@ + token + "; Path=/; Max-Age=43200; HttpOnly; SameSite=Lax"@ + (if durable {
        "; Secure"@
    } else {
        ""@
    })
}

pub fn session_cookie(token: &str, durable: bool) -> (c: String)
    ensures
        c@ == cookie_text(token@, durable),
{
    let name = if durable {
        "__Host-geo_session"
    } else {
        "geo_dev_session"
    };
    let secure = if durable {
        "; Secure"
    } else {
        ""
    };
    String::from_str(name).concat("=").concat(token).concat("; Path=/; Max-Age=43200; HttpOnly; SameSite=Lax").concat(secure)
}

/// The two cookies a logout sets, clearing the development and the
/// production session cookie.
pub fn cleared_session_cookies() -> (c: (String, String))
    ensures
        c.0@ == "geo_dev_session=; Path=/; Max-Age=0; HttpOnly; SameSite=Lax"@,
        c.1@ == "__Host-geo_session=; Path=/; Max-Age=0; HttpOnly; SameSite=Lax; Secure"@,
{
    (
        String::from_str("geo_dev_session=; Path=/; Max-Age=0; HttpOnly; SameSite=Lax"),
        String::from_str("__Host-geo_session=; Path=/; Max-Age=0; HttpOnly; SameSite=Lax; Secure"),
    )
}

/// A successful login: who signed in, the session opened for them and the
/// cookie that carries it.
#[derive(Debug)]
pub struct LoginSuccess {
    pub identity: LoginIdentity,
    pub credentials: SessionCredentials,
    pub cookie: String,
}

/// The operator that serves a host.
pub open spec fn host_operator(s: AuthStoreV, host: Seq<char>) -> Option<Operator> {
    match first_of(s.hosts, host_is(host_norm(host))) {
        Some(e) => first_of(s.operators, operator_is(e.1)),
        None => None,
    }
}

pub open spec fn host_not_configured() -> ErrorV {
    err(ErrorCode::Unauthorized, "request host is not configured"@)
}

pub open spec fn bad_credentials() -> ErrorV {
    err(ErrorCode::Unauthorized, "invalid email or password"@)
}

/// What a login does: the origin is checked, then the host, which must name
/// an operator; the credentials must identify one of its users; then a
/// session is opened for the default lifetime.  Nothing changes before that
/// last step.
pub open spec fn login_rule(
    old: AuthStoreV,
    new: AuthStoreV,
    origin: HeaderField,
    host: HeaderField,
    config: OriginConfig,
    login_name: Seq<char>,
    password: Seq<char>,
    durable: bool,
    r: Result<LoginSuccess, AppError>,
) -> bool {
    match origin_rule(origin, host, config) {
        Err(e) => r matches Err(x) && x@ == e && new == old,
        Ok(_) => match host_rule(host) {
            Err(e) => r matches Err(x) && x@ == e && new == old,
            Ok(h) => match host_operator(old, h) {
                None => r matches Err(x) && x@ == host_not_configured() && new == old,
                Some(op) => exists|found: Result<Option<LoginIdentity>, AppError>|
                    #![trigger login_outcome(old, op.id, login_name, password, found)]
                    login_outcome(old, op.id, login_name, password, found) && match found {
                        Err(e) => r matches Err(x) && x@ == e@ && new == old,
                        Ok(None) => r matches Err(x) && x@ == bad_credentials() && new == old,
                        Ok(Some(id)) => exists|opened: Result<SessionCredentials, AppError>|
                            #![trigger session_outcome(old, new, op.id, id.user@.id, DEFAULT_SESSION_TTL_SECS, opened)]
                            session_outcome(old, new, op.id, id.user@.id, DEFAULT_SESSION_TTL_SECS, opened) && match opened {
                                Err(e) => r matches Err(x) && x@ == e@,
                                Ok(c) => r matches Ok(done) && done.identity == id && done.credentials == c
                                    && done.cookie@ == cookie_text(c.token@, durable),
                            },
                    },
            },
        },
    }
}

pub fn login(
    repository: &mut MemoryAuthRepository,
    origin: &HeaderField,
    host: &HeaderField,
    config: &OriginConfig,
    login_name: &str,
    password: &str,
    durable: bool,
) -> (r: Result<LoginSuccess, AppError>)
    ensures
        login_rule(old(repository)@, final(repository)@, *origin, *host, *config, login_name@, password@, durable, r),
{
    validate_origin_headers_with_config(origin, host, config)?;
    let h = host_from_headers(host)?;
    let operator = match repository.operator_for_host(h.as_str())? {
        Some(operator) => operator,
        None => return Err(AppError::unauthorized("request host is not configured")),
    };
    let found = repository.authenticate(operator.id, login_name, password);
    let ghost found_view = found;
    let identity = match found {
        Ok(Some(identity)) => identity,
        Ok(None) => {
            assert(login_outcome(repository@, operator.id, login_name@, password@, found_view));
            return Err(AppError::unauthorized("invalid email or password"));
        },
        Err(e) => {
            assert(login_outcome(repository@, operator.id, login_name@, password@, found_view));
            return Err(e);
        },
    };
    let ghost before = repository@;
    let user_id = identity.user.id_of();
    let opened = repository.create_session(operator.id, user_id, DEFAULT_SESSION_TTL_SECS);
    let ghost opened_view = opened;
    assert(login_outcome(before, operator.id, login_name@, password@, found_view));
    assert(session_outcome(before, repository@, operator.id, user_id, DEFAULT_SESSION_TTL_SECS, opened_view));
    match opened {
        Ok(credentials) => {
            let cookie = session_cookie(credentials.token.as_str(), durable);
            Ok(LoginSuccess { identity, credentials, cookie })
        },
        Err(e) => Err(e),
    }
}

} // verus!
