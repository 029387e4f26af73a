//! The rules of the request boundary: which origins may send commands, how
//! the host, the session cookie and the tenant selector are read, and how the
//! server resolves who is asking from its own records.

use vstd::prelude::*;
use vstd::string::StringExecFns;
use crate::auth::{
    first_of, first_where, host_is, host_norm, keep, lemma_first_where, login_user, membership_of, normalize_host,
    operator_is, session_active_at, session_for, user_is, AuthStoreV, Membership, MemoryAuthRepository, Operator, Role,
    Session, User,
};
use crate::clock::utc_now_micros;
use crate::error::{AppError, ErrorCode, ErrorV, err};
use crate::ids::{new_uuid, uuid_parse, uuid_parse_error, uuid_value, OperatorId, ProjectId, TenantId, TenantScope};
use crate::ids::parse_uuid;
use crate::rules::{invalid, strs, text_result, unit_result};
use crate::text::{opt_text, 
    ascii_lower, split, split_once, split_once_spec, split_pieces, str_eq, to_ascii_lowercase, trim, trim_end_char,
    trim_end_matches, trimmed,
};

verus! {

pub const SESSION_COOKIE_NAME: &'static str = "__Host-geo_session";
pub const DEV_SESSION_COOKIE_NAME: &'static str = "geo_dev_session";

/// A request header as the boundary sees it: absent, present but not
/// visible ASCII, or its text.
#[derive(Debug)]
pub enum HeaderField {
    Missing,
    Unreadable,
    Text(String),
}

/// The name of the session cookie a deployment uses.
#[derive(Debug, Clone, Copy)]
pub struct SessionCookieConfig(pub &'static str);

/// Where state-changing requests may come from: the request's own host
/// under `scheme`, or an explicit allow-list of origins.
#[derive(Debug)]
pub struct OriginConfig {
    pub scheme: String,
    pub allowed_origins: Option<Vec<String>>,
}

/// An origin trimmed, without trailing slashes, in ASCII lower case.
pub open spec fn origin_norm(o: Seq<char>) -> Seq<char> {
    ascii_lower(trim_end_char(trimmed(o), '/'))
}

/// The normal forms of the origins that are not empty once normalised.
pub open spec fn allowed_norms(origins: Seq<Seq<char>>) -> Seq<Seq<char>>
    decreases origins.len(),
{
    if origins.len() == 0 {
        Seq::empty()
    } else if origin_norm(origins.last()).len() == 0 {
        allowed_norms(origins.drop_last())
    } else {
        allowed_norms(origins.drop_last()).push(origin_norm(origins.last()))
    }
}

impl OriginConfig {
    /// Same-host origins under `scheme`.
    pub fn new(scheme: String) -> (c: Self)
        ensures
            c.scheme@ == scheme@,
            c.allowed_origins is None,
    {
        OriginConfig { scheme, allowed_origins: None }
    }

    /// An allow-list of origins, normalised, the empty ones dropped.
    pub fn from_allowed_origins(origins: Vec<String>) -> (c: Self)
        ensures
            c.scheme@ == "http"@,
            c.allowed_origins matches Some(v) && strs(v@) == allowed_norms(strs(origins@)),
    {
        let ghost all = strs(origins@);
        let mut out: Vec<String> = Vec::new();
        let mut i: usize = 0;
        assert(all.take(0) =~= Seq::<Seq<char>>::empty());
        assert(strs(out@) =~= Seq::<Seq<char>>::empty());
        while i < origins.len()
            invariant
                i <= origins.len(),
                all == strs(origins@),
                strs(out@) == allowed_norms(all.take(i as int)),
            decreases origins.len() - i,
        {
            proof {
                assert(all.take(i + 1).drop_last() =~= all.take(i as int));
                assert(all.take(i + 1).last() == origins@[i as int]@);
            }
            let o = to_ascii_lowercase(trim_end_matches(trim(origins[i].as_str()), '/'));
            if o.unicode_len() > 0 {
                let ghost before = out@;
                let ghost ov = o@;
                out.push(o);
                assert(strs(out@) =~= strs(before).push(ov));
            }
            i += 1;
        }
        assert(all.take(origins.len() as int) =~= all);
        proof {
            reveal_strlit("http");
        }
        OriginConfig { scheme: String::from_str("http"), allowed_origins: Some(out) }
    }

    /// The local development front ends.
    pub fn local_http() -> (c: Self)
        ensures
            c.scheme@ == "http"@,
            c.allowed_origins matches Some(v) && strs(v@) == allowed_norms(
                seq![
                    "http://localhost:5173"@,
                    "http://127.0.0.1:5173"@,
                    "http://localhost:8080"@,
                    "http://127.0.0.1:8080"@,
                ],
            ),
    {
        let mut v: Vec<String> = Vec::new();
        v.push(String::from_str("http://localhost:5173"));
        v.push(String::from_str("http://127.0.0.1:5173"));
        v.push(String::from_str("http://localhost:8080"));
        v.push(String::from_str("http://127.0.0.1:8080"));
        assert(strs(v@) =~= seq![
            "http://localhost:5173"@,
            "http://127.0.0.1:5173"@,
            "http://localhost:8080"@,
            "http://127.0.0.1:8080"@,
        ]);
        Self::from_allowed_origins(v)
    }
}

/// What the Host header gives: its normalised name, which must not be empty.
pub open spec fn host_rule(host: HeaderField) -> Result<Seq<char>, ErrorV> {
    match host {
        HeaderField::Missing => Err(err(ErrorCode::Unauthorized, "Host header is required"@)),
        HeaderField::Unreadable => Err(err(ErrorCode::Unauthorized, "invalid Host header"@)),
        HeaderField::Text(v) => if host_norm(v@).len() == 0 {
            Err(err(ErrorCode::Unauthorized, "Host header is required"@))
        } else {
            Ok(host_norm(v@))
        },
    }
}

/// The request's host name, normalised.
pub fn host_from_headers(host: &HeaderField) -> (r: Result<String, AppError>)
    ensures
        text_result(r) == host_rule(*host),
{
    match host {
        HeaderField::Missing => Err(AppError::unauthorized("Host header is required")),
        HeaderField::Unreadable => Err(AppError::unauthorized("invalid Host header")),
        HeaderField::Text(v) => {
            let h = normalize_host(v.as_str());
            if h.unicode_len() == 0 {
                Err(AppError::unauthorized("Host header is required"))
            } else {
                Ok(h)
            }
        },
    }
}

pub open spec fn origin_required() -> ErrorV {
    err(ErrorCode::Forbidden, "Origin header is required for state-changing requests"@)
}

pub open spec fn cross_origin() -> ErrorV {
    err(ErrorCode::Forbidden, "cross-origin requests are not allowed"@)
}

/// Same-host origin check: the Origin must equal `scheme://host`, ignoring
/// ASCII case.
pub open spec fn same_host_rule(origin: HeaderField, host: HeaderField, scheme: Seq<char>) -> Result<(), ErrorV> {
    match origin {
        HeaderField::Missing => Err(origin_required()),
        HeaderField::Unreadable => Err(err(ErrorCode::Forbidden, "invalid Origin header"@)),
        HeaderField::Text(o) => if o@ == "null"@ || o@.len() == 0 {
            Err(cross_origin())
        } else {
            match host_rule(host) {
                Err(e) => Err(e),
                Ok(h) => if ascii_lower(o@) != ascii_lower(scheme + "://"@ + h) {
                    Err(err(ErrorCode::Forbidden, "Origin does not match the request host"@))
                } else {
                    Ok(())
                },
            }
        },
    }
}

/// The origin check of a state-changing request under `scheme`.
pub fn validate_origin_headers(origin: &HeaderField, host: &HeaderField, scheme: &str) -> (r: Result<(), AppError>)
    ensures
        unit_result(r) == same_host_rule(*origin, *host, scheme@),
{
    let o = match origin {
        HeaderField::Missing => {
            return Err(AppError::forbidden("Origin header is required for state-changing requests"));
        },
        HeaderField::Unreadable => {
            return Err(AppError::forbidden("invalid Origin header"));
        },
        HeaderField::Text(o) => o,
    };
    proof {
        reveal_strlit("null");
    }
    if str_eq(o.as_str(), "null") || o.unicode_len() == 0 {
        return Err(AppError::forbidden("cross-origin requests are not allowed"));
    }
    let h = host_from_headers(host)?;
    let expected = String::from_str(scheme).concat("://").concat(h.as_str());
    let a = to_ascii_lowercase(o.as_str());
    let b = to_ascii_lowercase(expected.as_str());
    if !str_eq(a.as_str(), b.as_str()) {
        return Err(AppError::forbidden("Origin does not match the request host"));
    }
    Ok(())
}

/// The origin check under a configuration: an allow-list when there is one,
/// the same-host check otherwise.
pub open spec fn origin_rule(origin: HeaderField, host: HeaderField, config: OriginConfig) -> Result<(), ErrorV> {
    match config.allowed_origins {
        Some(list) => match origin {
            HeaderField::Missing => Err(origin_required()),
            HeaderField::Unreadable => Err(err(ErrorCode::Forbidden, "invalid Origin header"@)),
            HeaderField::Text(o) => {
                let n = origin_norm(o@);
                if n.len() == 0 || n == "null"@ {
                    Err(cross_origin())
                } else if !strs(list@).contains(n) {
                    Err(err(ErrorCode::Forbidden, "Origin is not in the configured allow-list"@))
                } else {
                    Ok(())
                }
            },
        },
        None => same_host_rule(origin, host, config.scheme@),
    }
}

fn contains_text(list: &Vec<String>, x: &str) -> (b: bool)
    ensures
        b == strs(list@).contains(x@),
{
    let ghost ts = strs(list@);
    let mut i: usize = 0;
    while i < list.len()
        invariant
            i <= list.len(),
            ts == strs(list@),
            forall|k: int| 0 <= k < i ==> ts[k] != x@,
        decreases list.len() - i,
    {
        if str_eq(list[i].as_str(), x) {
            assert(ts[i as int] == x@);
            return true;
        }
        i += 1;
    }
    false
}

pub fn validate_origin_headers_with_config(origin: &HeaderField, host: &HeaderField, config: &OriginConfig) -> (r: Result<
    (),
    AppError,
>)
    ensures
        unit_result(r) == origin_rule(*origin, *host, *config),
{
    match &config.allowed_origins {
        Some(list) => {
            let o = match origin {
                HeaderField::Missing => {
                    return Err(AppError::forbidden("Origin header is required for state-changing requests"));
                },
                HeaderField::Unreadable => {
                    return Err(AppError::forbidden("invalid Origin header"));
                },
                HeaderField::Text(o) => o,
            };
            let n = to_ascii_lowercase(trim_end_matches(trim(o.as_str()), '/'));
            proof {
                reveal_strlit("null");
            }
            if n.unicode_len() == 0 || str_eq(n.as_str(), "null") {
                return Err(AppError::forbidden("cross-origin requests are not allowed"));
            }
            if !contains_text(list, n.as_str()) {
                return Err(AppError::forbidden("Origin is not in the configured allow-list"));
            }
            Ok(())
        },
        None => validate_origin_headers(origin, host, config.scheme.as_str()),
    }
}

/// The value of cookie `name` in the pieces of a Cookie header: the first
/// piece that, trimmed, reads `name=value`.
pub open spec fn cookie_in(pieces: Seq<Seq<char>>, name: Seq<char>) -> Option<Seq<char>>
    decreases pieces.len(),
{
    if pieces.len() == 0 {
        None
    } else {
        match split_once_spec(trimmed(pieces[0]), '=') {
            Some((k, v)) => if k == name {
                Some(v)
            } else {
                cookie_in(pieces.drop_first(), name)
            },
            None => cookie_in(pieces.drop_first(), name),
        }
    }
}

pub open spec fn cookie_spec(cookies: Seq<char>, name: Seq<char>) -> Option<Seq<char>> {
    cookie_in(split_pieces(cookies, ';'), name)
}

/// The value of cookie `name` in a Cookie header.
pub fn cookie_value(cookies: &str, name: &str) -> (r: Option<String>)
    ensures
        opt_text(r) == cookie_spec(cookies@, name@),
{
    let pieces = split(cookies, ';');
    let ghost ps = split_pieces(cookies@, ';');
    let mut i: usize = 0;
    assert(ps.skip(0) =~= ps);
    while i < pieces.len()
        invariant
            i <= pieces.len(),
            ps == pieces@.map_values(|p: String| p@),
            ps == split_pieces(cookies@, ';'),
            cookie_in(ps, name@) == cookie_in(ps.skip(i as int), name@),
        decreases pieces.len() - i,
    {
        proof {
            assert(ps.skip(i as int)[0] == pieces@[i as int]@);
            assert(ps.skip(i as int).drop_first() =~= ps.skip(i + 1));
        }
        let t = trim(pieces[i].as_str());
        match split_once(t, '=') {
            Some((k, v)) => {
                if str_eq(k, name) {
                    assert(cookie_in(ps.skip(i as int), name@) == Some(v@));
                    return Some(v.to_owned());
                }
            },
            None => {},
        }
        i += 1;
    }
    assert(ps.skip(pieces.len() as int) =~= Seq::<Seq<char>>::empty());
    None
}

/// The `tenant_id` value of a query string: that of the first `key=value`
/// part whose key is `tenant_id`.
pub open spec fn query_tenant(parts: Seq<Seq<char>>) -> Option<Seq<char>>
    decreases parts.len(),
{
    if parts.len() == 0 {
        None
    } else {
        match split_once_spec(parts[0], '=') {
            Some((k, v)) => if k == "tenant_id"@ {
                Some(v)
            } else {
                query_tenant(parts.drop_first())
            },
            None => query_tenant(parts.drop_first()),
        }
    }
}

pub open spec fn invalid_selector() -> ErrorV {
    invalid("invalid tenant selector"@)
}

/// The tenant a request selects: the selector header, else the `tenant_id`
/// query parameter, else none.
pub open spec fn selector_rule(header: HeaderField, query: Option<Seq<char>>) -> Result<Option<TenantId>, ErrorV> {
    match header {
        HeaderField::Text(v) => match uuid_parse(v@) {
            Some(id) => Ok(Some(TenantId(id))),
            None => Err(invalid_selector()),
        },
        HeaderField::Unreadable => Err(invalid_selector()),
        HeaderField::Missing => match query {
            None => Ok(None),
            Some(q) => match query_tenant(split_pieces(q, '&')) {
                None => Ok(None),
                Some(v) => match uuid_parse(v) {
                    Some(id) => Ok(Some(TenantId(id))),
                    None => Err(invalid_selector()),
                },
            },
        },
    }
}

pub open spec fn selector_result(r: Result<Option<TenantId>, AppError>) -> Result<Option<TenantId>, ErrorV> {
    match r {
        Ok(t) => Ok(t),
        Err(e) => Err(e@),
    }
}

pub fn tenant_selector(header: &HeaderField, query: Option<&str>) -> (r: Result<Option<TenantId>, AppError>)
    ensures
        selector_result(r) == selector_rule(
            *header,
            match query {
                Some(q) => Some(q@),
                None => None,
            },
        ),
{
    match header {
        HeaderField::Text(v) => {
            return match uuid_value(v.as_str()) {
                Some(id) => Ok(Some(TenantId(id))),
                None => Err(AppError::invalid_request("invalid tenant selector")),
            };
        },
        HeaderField::Unreadable => {
            return Err(AppError::invalid_request("invalid tenant selector"));
        },
        HeaderField::Missing => {},
    }
    let q = match query {
        Some(q) => q,
        None => return Ok(None),
    };
    let parts = split(q, '&');
    let ghost ps = split_pieces(q@, '&');
    let mut i: usize = 0;
    assert(ps.skip(0) =~= ps);
    proof {
        reveal_strlit("tenant_id");
    }
    while i < parts.len()
        invariant
            i <= parts.len(),
            ps == parts@.map_values(|p: String| p@),
            ps == split_pieces(q@, '&'),
            query == Some(q),
            header is Missing,
            query_tenant(ps) == query_tenant(ps.skip(i as int)),
        decreases parts.len() - i,
    {
        proof {
            assert(ps.skip(i as int)[0] == parts@[i as int]@);
            assert(ps.skip(i as int).drop_first() =~= ps.skip(i + 1));
        }
        match split_once(parts[i].as_str(), '=') {
            Some((k, v)) => {
                if str_eq(k, "tenant_id") {
                    assert(query_tenant(ps.skip(i as int)) == Some(v@));
                    return match uuid_value(v) {
                        Some(id) => Ok(Some(TenantId(id))),
                        None => Err(AppError::invalid_request("invalid tenant selector")),
                    };
                }
            },
            None => {},
        }
        i += 1;
    }
    assert(ps.skip(parts.len() as int) =~= Seq::<Seq<char>>::empty());
    Ok(None)
}

/// What a request offers for authentication.
#[derive(Debug)]
pub struct AuthRequestInput {
    pub host: String,
    pub session_token: String,
    pub require_tenant: bool,
    pub tenant_id: Option<TenantId>,
}

pub open spec fn session_required() -> ErrorV {
    err(ErrorCode::Unauthorized, "authenticated session is required"@)
}

/// The session token of a Cookie header: the expected cookie, or else the
/// production one and then the development one.
pub open spec fn token_rule(cookie: HeaderField, expected: Option<Seq<char>>) -> Option<Seq<char>> {
    match cookie {
        HeaderField::Text(v) => match expected {
            Some(n) => cookie_spec(v@, n),
            None => match cookie_spec(v@, "__Host-geo_session"@) {
                Some(t) => Some(t),
                None => cookie_spec(v@, "geo_dev_session"@),
            },
        },
        _ => None,
    }
}

/// What `auth_request_input` reads from a request.
pub open spec fn input_rule(
    host: HeaderField,
    cookie: HeaderField,
    selector: HeaderField,
    query: Option<Seq<char>>,
    require_tenant: bool,
    expected: Option<Seq<char>>,
    r: Result<AuthRequestInput, AppError>,
) -> bool {
    match host_rule(host) {
        Err(e) => r matches Err(x) && x@ == e,
        Ok(h) => match token_rule(cookie, expected) {
            Some(t) if t.len() > 0 => if require_tenant {
                match selector_rule(selector, query) {
                    Err(e) => r matches Err(x) && x@ == e,
                    Ok(None) => r matches Err(x) && x@ == invalid("tenant selector is required"@),
                    Ok(Some(tid)) => r matches Ok(i) && i.host@ == h && i.session_token@ == t && i.require_tenant
                        && i.tenant_id == Some(tid),
                }
            } else {
                r matches Ok(i) && i.host@ == h && i.session_token@ == t && !i.require_tenant && i.tenant_id is None
            },
            _ => r matches Err(x) && x@ == session_required(),
        },
    }
}

/// Reads the host, the session token and, when asked, the tenant selector.
pub fn auth_request_input(
    host: &HeaderField,
    cookie: &HeaderField,
    selector: &HeaderField,
    query: Option<&str>,
    require_tenant: bool,
    expected_cookie_name: Option<&str>,
) -> (r: Result<AuthRequestInput, AppError>)
    ensures
        input_rule(
            *host,
            *cookie,
            *selector,
            match query {
                Some(q) => Some(q@),
                None => None,
            },
            require_tenant,
            match expected_cookie_name {
                Some(n) => Some(n@),
                None => None,
            },
            r,
        ),
{
    let host = host_from_headers(host)?;
    let token = match cookie {
        HeaderField::Text(v) => match expected_cookie_name {
            Some(n) => cookie_value(v.as_str(), n),
            None => match cookie_value(v.as_str(), SESSION_COOKIE_NAME) {
                Some(t) => Some(t),
                None => cookie_value(v.as_str(), DEV_SESSION_COOKIE_NAME),
            },
        },
        _ => None,
    };
    let session_token = match token {
        Some(t) => {
            if t.unicode_len() == 0 {
                return Err(AppError::unauthorized("authenticated session is required"));
            }
            t
        },
        None => {
            return Err(AppError::unauthorized("authenticated session is required"));
        },
    };
    let tenant_id = if require_tenant {
        match tenant_selector(selector, query)? {
            Some(t) => Some(t),
            None => {
                return Err(AppError::invalid_request("tenant selector is required"));
            },
        }
    } else {
        None
    };
    Ok(AuthRequestInput { host, session_token, require_tenant, tenant_id })
}

/// The identity the server resolved for a request.
#[derive(Debug)]
pub struct AuthContext {
    pub operator: Operator,
    pub user: User,
    pub session: Session,
    pub memberships: Vec<Membership>,
    pub scope: TenantScope,
}

pub open spec fn member_of(tid: TenantId) -> spec_fn(Membership) -> bool {
    |m: Membership| m.tenant_id == tid && m.active
}

/// How a request is resolved at instant `now`: Host to operator, session
/// token to session, session to active user, user to memberships, and the
/// selected (or first) membership to the tenant scope.
pub open spec fn resolve_rule(s: AuthStoreV, input: AuthRequestInput, now: i64, r: Result<AuthContext, AppError>) -> bool {
    let op = match first_of(s.hosts, host_is(host_norm(input.host@))) {
        Some(e) => first_of(s.operators, operator_is(e.1)),
        None => None,
    };
    match op {
        None => r matches Err(x) && x@ == err(ErrorCode::Unauthorized, "request host is not configured"@),
        Some(o) => match first_of(s.sessions, session_for(o.id, input.session_token@)) {
            None => r matches Err(x) && x@ == session_required(),
            Some(sess) => if !session_active_at(sess@, now) {
                r matches Err(x) && x@ == err(ErrorCode::Unauthorized, "session is expired or revoked"@)
            } else {
                match first_of(s.users, user_is(sess@.user_id)) {
                    Some(u) if u@.operator_id == o.id && u@.active => {
                        let ms = keep(s.memberships, membership_of(u@.id, o.id));
                        if ms.len() == 0 {
                            r matches Err(x) && x@ == err(ErrorCode::Forbidden, "user has no membership for this operator"@)
                        } else if input.require_tenant {
                            match input.tenant_id {
                                None => r matches Err(x) && x@ == invalid("tenant selector is required"@),
                                Some(tid) => match first_of(ms, member_of(tid)) {
                                    None => r matches Err(x) && x@ == err(
                                        ErrorCode::Forbidden,
                                        "user is not a member of the selected tenant"@,
                                    ),
                                    Some(m) => r matches Ok(a) && a.operator == o && a.user == u && a.session == sess
                                        && a.memberships@ == ms && a.scope == TenantScope {
                                        operator_id: m.operator_id,
                                        tenant_id: m.tenant_id,
                                        project_id: None,
                                    },
                                },
                            }
                        } else {
                            r matches Ok(a) && a.operator == o && a.user == u && a.session == sess && a.memberships@ == ms
                                && a.scope == TenantScope { operator_id: o.id, tenant_id: ms[0].tenant_id, project_id: None }
                        }
                    },
                    _ => r matches Err(x) && x@ == err(ErrorCode::Unauthorized, "user is inactive"@),
                }
            },
        },
    }
}

fn first_member(ms: &Vec<Membership>, tid: TenantId) -> (r: Option<usize>)
    ensures
        match r {
            Some(i) => i < ms@.len() && first_where(ms@, member_of(tid)) == Some(i as int),
            None => first_where(ms@, member_of(tid)) is None,
        },
{
    let mut i: usize = 0;
    while i < ms.len()
        invariant
            i <= ms.len(),
            forall|j: int| 0 <= j < i ==> !member_of(tid)(#[trigger] ms@[j]),
        decreases ms.len() - i,
    {
        if ms[i].tenant_id == tid && ms[i].active {
            proof {
                lemma_first_where(ms@, member_of(tid), i as int);
            }
            return Some(i);
        }
        i += 1;
    }
    proof {
        lemma_first_where(ms@, member_of(tid), i as int);
    }
    None
}

/// Resolves who is asking from the server's own records; no identity the
/// client sends is believed.
pub fn resolve_auth_context(repository: &MemoryAuthRepository, input: AuthRequestInput) -> (r: Result<AuthContext, AppError>)
    ensures
        exists|now: i64| resolve_rule(repository@, input, now, r),
{
    let ghost iv = input;
    let operator = match repository.operator_for_host(input.host.as_str()) {
        Ok(Some(o)) => o,
        _ => {
            let r = Err(AppError::unauthorized("request host is not configured"));
            assert(resolve_rule(repository@, iv, 0, r));
            return r;
        },
    };
    let session = match repository.find_session(operator.id, input.session_token.as_str()) {
        Ok(Some(s)) => s,
        _ => {
            let r = Err(AppError::unauthorized("authenticated session is required"));
            assert(resolve_rule(repository@, iv, 0, r));
            return r;
        },
    };
    let now = utc_now_micros();
    if !session.is_active_at(now) {
        let r = Err(AppError::unauthorized("session is expired or revoked"));
        assert(resolve_rule(repository@, iv, now, r));
        return r;
    }
    let user = match repository.find_user(operator.id, session.user_of()) {
        Ok(Some(u)) if u.is_active() => u,
        _ => {
            let r = Err(AppError::unauthorized("user is inactive"));
            assert(resolve_rule(repository@, iv, now, r));
            return r;
        },
    };
    let memberships = match repository.memberships(user.id_of(), operator.id) {
        Ok(v) => v,
        Err(e) => return Err(e),
    };
    if memberships.len() == 0 {
        let r = Err(AppError::forbidden("user has no membership for this operator"));
        assert(resolve_rule(repository@, iv, now, r));
        return r;
    }
    let scope = if input.require_tenant {
        let tid = match input.tenant_id {
            Some(t) => t,
            None => {
                let r = Err(AppError::invalid_request("tenant selector is required"));
                assert(resolve_rule(repository@, iv, now, r));
                return r;
            },
        };
        match first_member(&memberships, tid) {
            Some(k) => TenantScope::new(memberships[k].operator_id, memberships[k].tenant_id, None),
            None => {
                let r = Err(AppError::forbidden("user is not a member of the selected tenant"));
                assert(resolve_rule(repository@, iv, now, r));
                return r;
            },
        }
    } else {
        TenantScope::new(operator.id, memberships[0].tenant_id, None)
    };
    let r = Ok(AuthContext { operator, user, session, memberships, scope });
    assert(resolve_rule(repository@, iv, now, r));
    r
}

/// The checks a state-changing request passes after authentication: its
/// origin, an authenticated session, and the session's CSRF token.
pub open spec fn csrf_rule(
    command: bool,
    origin: HeaderField,
    host: HeaderField,
    config: OriginConfig,
    auth: Option<Seq<char>>,
    token: HeaderField,
) -> Result<(), ErrorV> {
    if !command {
        Ok(())
    } else {
        match origin_rule(origin, host, config) {
            Err(e) => Err(e),
            Ok(()) => match auth {
                None => Err(session_required()),
                Some(csrf) => match token {
                    HeaderField::Text(t) => if t@ != csrf {
                        Err(err(ErrorCode::Forbidden, "invalid CSRF token"@))
                    } else {
                        Ok(())
                    },
                    _ => Err(err(ErrorCode::Forbidden, "missing CSRF token"@)),
                },
            },
        }
    }
}

/// The origin and CSRF check of a request; `command` says whether its
/// method changes state.
pub fn check_csrf(
    command: bool,
    origin: &HeaderField,
    host: &HeaderField,
    config: &OriginConfig,
    auth: Option<&AuthContext>,
    token: &HeaderField,
) -> (r: Result<(), AppError>)
    ensures
        unit_result(r) == csrf_rule(
            command,
            *origin,
            *host,
            *config,
            match auth {
                Some(a) => Some(a.session@.csrf_token),
                None => None,
            },
            *token,
        ),
{
    if !command {
        return Ok(());
    }
    validate_origin_headers_with_config(origin, host, config)?;
    let auth = match auth {
        Some(a) => a,
        None => {
            return Err(AppError::unauthorized("authenticated session is required"));
        },
    };
    match token {
        HeaderField::Text(t) => {
            if !str_eq(t.as_str(), auth.session.csrf_token()) {
                return Err(AppError::forbidden("invalid CSRF token"));
            }
            Ok(())
        },
        _ => Err(AppError::forbidden("missing CSRF token")),
    }
}

/// The request and correlation ids echoed on every response.
#[derive(Debug, Clone, Copy, PartialEq, Eq, Structural)]
pub struct RequestContext {
    pub request_id: u128,
    pub correlation_id: u128,
}

impl RequestContext {
    pub fn new(request_id: u128, correlation_id: u128) -> (c: Self)
        ensures
            c.request_id == request_id && c.correlation_id == correlation_id,
    {
        RequestContext { request_id, correlation_id }
    }

    /// The ids a request carries, a fresh request id when it has none, and
    /// the request id as correlation id when that is missing.
    pub fn from_headers(request_id: Option<u128>, correlation_id: Option<u128>) -> (c: Self)
        ensures
            request_id matches Some(id) ==> c.request_id == id,
            c.correlation_id == match correlation_id {
                Some(id) => id,
                None => c.request_id,
            },
    {
        let rid = match request_id {
            Some(id) => id,
            None => new_uuid(),
        };
        let cid = match correlation_id {
            Some(id) => id,
            None => rid,
        };
        RequestContext { request_id: rid, correlation_id: cid }
    }
}

// ---------------------------------------------------------------------------
// Project requests.
// ---------------------------------------------------------------------------

/// The membership of the selected tenant, if the user has an active one.
pub fn selected_membership(auth: &AuthContext) -> (r: Option<&Membership>)
    ensures
        match first_of(auth.memberships@, member_of(auth.scope.tenant_id)) {
            Some(m) => r == Some(&m),
            None => r is None,
        },
{
    match first_member(&auth.memberships, auth.scope.tenant_id) {
        Some(k) => Some(&auth.memberships[k]),
        None => None,
    }
}

/// Who may change projects: customer admins and members of the selected
/// tenant.
pub open spec fn writer_rule(m: Option<Membership>) -> Result<(), ErrorV> {
    match m {
        Some(x) => if x.role == Role::CustomerAdmin || x.role == Role::CustomerMember {
            Ok(())
        } else if x.role == Role::CustomerReadOnly {
            Err(err(ErrorCode::Forbidden, "viewer membership cannot change projects"@))
        } else {
            Err(err(ErrorCode::Forbidden, "membership role cannot change customer projects"@))
        },
        None => Err(err(ErrorCode::Forbidden, "user is not a member of the selected tenant"@)),
    }
}

pub fn require_project_writer(auth: &AuthContext) -> (r: Result<(), AppError>)
    ensures
        unit_result(r) == writer_rule(first_of(auth.memberships@, member_of(auth.scope.tenant_id))),
{
    match selected_membership(auth) {
        Some(m) => match m.role {
            Role::CustomerAdmin | Role::CustomerMember => Ok(()),
            Role::CustomerReadOnly => Err(AppError::forbidden("viewer membership cannot change projects")),
            _ => Err(AppError::forbidden("membership role cannot change customer projects")),
        },
        None => Err(AppError::forbidden("user is not a member of the selected tenant")),
    }
}

/// A page size: 50 when absent, else a decimal between 1 and 100.
pub open spec fn limit_rule(value: Option<Seq<char>>) -> Result<usize, ErrorV> {
    let parsed: Option<usize> = match value {
        None => Some(50usize),
        Some(v) => match crate::text::unsigned_decimal(v) {
            Some(n) => if n <= usize::MAX {
                Some(n as usize)
            } else {
                None
            },
            None => None,
        },
    };
    match parsed {
        None => Err(invalid("limit must be an integer"@)),
        Some(n) => if 1 <= n && n <= 100 {
            Ok(n)
        } else {
            Err(invalid("limit must be between 1 and 100"@))
        },
    }
}

pub fn parse_project_limit(value: Option<&str>) -> (r: Result<usize, AppError>)
    ensures
        match r {
            Ok(n) => limit_rule(match value { Some(v) => Some(v@), None => None }) == Ok::<usize, ErrorV>(n),
            Err(e) => limit_rule(match value { Some(v) => Some(v@), None => None }) == Err::<usize, ErrorV>(e@),
        },
{
    let limit = match value {
        None => 50,
        Some(v) => match crate::text::parse_usize(v) {
            Some(n) => n,
            None => return Err(AppError::invalid_request("limit must be an integer")),
        },
    };
    if limit < 1 || limit > 100 {
        return Err(AppError::invalid_request("limit must be between 1 and 100"));
    }
    Ok(limit)
}

/// The revision an If-Match header names: trimmed, an optional weak `W/`
/// prefix, surrounding quotes removed, then a decimal.
pub open spec fn if_match_rule(header: HeaderField) -> Result<i64, ErrorV> {
    match header {
        HeaderField::Missing => Err(invalid("If-Match header is required"@)),
        HeaderField::Unreadable => Err(invalid("invalid If-Match header"@)),
        HeaderField::Text(v) => {
            let t = trimmed(v@);
            let w = if crate::text::has_prefix(t, "W/"@) {
                trimmed(t.skip(2))
            } else {
                trimmed(t)
            };
            let q = trim_end_char(crate::text::trim_start_char(w, '"'), '"');
            if q.len() == 0 || q == "*"@ {
                Err(invalid("If-Match must contain a numeric project revision"@))
            } else {
                match crate::text::signed_decimal(q) {
                    Some(n) => if i64::MIN <= n <= i64::MAX {
                        Ok(n as i64)
                    } else {
                        Err(invalid("If-Match must contain a numeric project revision"@))
                    },
                    None => Err(invalid("If-Match must contain a numeric project revision"@)),
                }
            }
        },
    }
}

pub fn parse_if_match(header: &HeaderField) -> (r: Result<i64, AppError>)
    ensures
        match r {
            Ok(n) => if_match_rule(*header) == Ok::<i64, ErrorV>(n),
            Err(e) => if_match_rule(*header) == Err::<i64, ErrorV>(e@),
        },
{
    let v = match header {
        HeaderField::Missing => return Err(AppError::invalid_request("If-Match header is required")),
        HeaderField::Unreadable => return Err(AppError::invalid_request("invalid If-Match header")),
        HeaderField::Text(v) => v,
    };
    let t = trim(v.as_str());
    proof {
        reveal_strlit("W/");
        reveal_strlit("*");
    }
    let w = match crate::text::strip_prefix(t, "W/") {
        Some(rest) => trim(rest),
        None => trim(t),
    };
    let q = crate::text::trim_matches(w, '"');
    if q.unicode_len() == 0 || str_eq(q, "*") {
        return Err(AppError::invalid_request("If-Match must contain a numeric project revision"));
    }
    match crate::text::parse_i64(q) {
        Some(n) => Ok(n),
        None => Err(AppError::invalid_request("If-Match must contain a numeric project revision")),
    }
}

proof fn lemma_keep_satisfies<T>(s: Seq<T>, p: spec_fn(T) -> bool)
    ensures
        forall|i: int| 0 <= i < keep(s, p).len() ==> p(#[trigger] keep(s, p)[i]),
    decreases s.len(),
{
    if s.len() > 0 {
        lemma_keep_satisfies(s.drop_last(), p);
        let k = keep(s.drop_last(), p);
        if p(s.last()) {
            assert forall|i: int| 0 <= i < keep(s, p).len() implies p(#[trigger] keep(s, p)[i]) by {
                if i < k.len() {
                    assert(keep(s, p)[i] == k[i]);
                }
            }
        }
    }
}

/// The tenant a request is resolved to is one the user is an active member
/// of with the operator of the request's host: the selector picks among the
/// server's memberships and cannot name another tenant.
pub proof fn lemma_scope_is_a_membership(s: AuthStoreV, input: AuthRequestInput, now: i64, a: AuthContext)
    requires
        resolve_rule(s, input, now, Ok(a)),
    ensures
        exists|i: int|
            0 <= i < a.memberships@.len() && (#[trigger] a.memberships@[i]).tenant_id == a.scope.tenant_id
                && a.memberships@[i].operator_id == a.scope.operator_id && a.memberships@[i].active
                && a.memberships@[i].user_id == a.user@.id,
        a.scope.project_id is None,
        a.session@.operator_id == a.operator.id,
        a.user@.operator_id == a.operator.id,
        session_active_at(a.session@, now),
{
    let o = match first_of(s.hosts, host_is(host_norm(input.host@))) {
        Some(e) => first_of(s.operators, operator_is(e.1))->0,
        None => a.operator,
    };
    let sess = first_of(s.sessions, session_for(o.id, input.session_token@))->0;
    lemma_first_where(s.sessions, session_for(o.id, input.session_token@), 0);
    let u = first_of(s.users, user_is(sess@.user_id))->0;
    let ms = keep(s.memberships, membership_of(u@.id, o.id));
    lemma_keep_satisfies(s.memberships, membership_of(u@.id, o.id));
    if input.require_tenant {
        let tid = input.tenant_id->0;
        lemma_first_where(ms, member_of(tid), 0);
        let k = first_where(ms, member_of(tid))->0;
        assert(membership_of(u@.id, o.id)(ms[k]));
        assert(a.memberships@[k] == ms[k]);
    } else {
        assert(membership_of(u@.id, o.id)(ms[0]));
        assert(a.memberships@[0] == ms[0]);
    }
}

/// A read-only membership cannot change projects.
pub proof fn lemma_viewer_cannot_write(m: Membership)
    requires
        m.role == Role::CustomerReadOnly,
    ensures
        writer_rule(Some(m)) is Err,
{
}

// ---------------------------------------------------------------------------
// Development scope headers and the project selector.
// ---------------------------------------------------------------------------

pub const OPERATOR_ID_HEADER: &'static str = "x-operator-id";
pub const TENANT_ID_HEADER: &'static str = "x-tenant-id";
pub const PROJECT_ID_HEADER: &'static str = "x-project-id";

/// An optional id header: absent, or a UUID; anything else names the header.
pub open spec fn id_header_rule(h: HeaderField, name: Seq<char>) -> Result<Option<u128>, ErrorV> {
    match h {
        HeaderField::Missing => Ok(None),
        HeaderField::Unreadable => Err(invalid("invalid "@ + name + " header"@)),
        HeaderField::Text(v) => match uuid_parse(v@) {
            Some(x) => Ok(Some(x)),
            None => Err(invalid("invalid "@ + name + " header: "@ + uuid_parse_error(v@))),
        },
    }
}

/// A required id header: as above, and present.
pub open spec fn required_id_rule(h: HeaderField, name: Seq<char>) -> Result<u128, ErrorV> {
    match id_header_rule(h, name) {
        Ok(Some(x)) => Ok(x),
        Ok(None) => Err(invalid("missing "@ + name + " header"@)),
        Err(e) => Err(e),
    }
}

/// The scope the development headers name: operator and tenant required,
/// project optional, checked in that order.
pub open spec fn dev_scope_rule(operator: HeaderField, tenant: HeaderField, project: HeaderField) -> Result<
    TenantScope,
    ErrorV,
> {
    match required_id_rule(operator, OPERATOR_ID_HEADER@) {
        Err(e) => Err(e),
        Ok(o) => match required_id_rule(tenant, TENANT_ID_HEADER@) {
            Err(e) => Err(e),
            Ok(t) => match id_header_rule(project, PROJECT_ID_HEADER@) {
                Err(e) => Err(e),
                Ok(p) => Ok(
                    TenantScope {
                        operator_id: OperatorId(o),
                        tenant_id: TenantId(t),
                        project_id: match p {
                            Some(x) => Some(ProjectId(x)),
                            None => None,
                        },
                    },
                ),
            },
        },
    }
}

fn id_header(h: &HeaderField, name: &str) -> (r: Result<Option<u128>, AppError>)
    ensures
        match r {
            Ok(v) => id_header_rule(*h, name@) == Ok::<Option<u128>, ErrorV>(v),
            Err(e) => id_header_rule(*h, name@) == Err::<Option<u128>, ErrorV>(e@),
        },
{
    match h {
        HeaderField::Missing => Ok(None),
        HeaderField::Unreadable => Err(AppError::with_message(
            ErrorCode::InvalidRequest,
            String::from_str("invalid ").concat(name).concat(" header"),
        )),
        HeaderField::Text(v) => match parse_uuid(v.as_str()) {
            Ok(x) => Ok(Some(x)),
            Err(message) => Err(AppError::with_message(
                ErrorCode::InvalidRequest,
                String::from_str("invalid ").concat(name).concat(" header: ").concat(message.as_str()),
            )),
        },
    }
}

fn required_id_header(h: &HeaderField, name: &str) -> (r: Result<u128, AppError>)
    ensures
        match r {
            Ok(v) => required_id_rule(*h, name@) == Ok::<u128, ErrorV>(v),
            Err(e) => required_id_rule(*h, name@) == Err::<u128, ErrorV>(e@),
        },
{
    match id_header(h, name)? {
        Some(x) => Ok(x),
        None => Err(AppError::with_message(
            ErrorCode::InvalidRequest,
            String::from_str("missing ").concat(name).concat(" header"),
        )),
    }
}

/// The scope a local development request names in its headers.  Only a
/// development assembly reads these; a deployment resolves the scope from
/// the session.
pub fn scope_from_headers(operator: &HeaderField, tenant: &HeaderField, project: &HeaderField) -> (r: Result<
    TenantScope,
    AppError,
>)
    ensures
        match r {
            Ok(scope) => dev_scope_rule(*operator, *tenant, *project) == Ok::<TenantScope, ErrorV>(scope),
            Err(e) => dev_scope_rule(*operator, *tenant, *project) == Err::<TenantScope, ErrorV>(e@),
        },
{
    let o = required_id_header(operator, OPERATOR_ID_HEADER)?;
    let t = required_id_header(tenant, TENANT_ID_HEADER)?;
    let p = id_header(project, PROJECT_ID_HEADER)?;
    let project_id = match p {
        Some(x) => Some(ProjectId(x)),
        None => None,
    };
    Ok(TenantScope { operator_id: OperatorId(o), tenant_id: TenantId(t), project_id })
}

/// The project named by the `x-project-id` header, if any.
pub open spec fn project_header_rule(h: HeaderField) -> Result<Option<u128>, ErrorV> {
    match h {
        HeaderField::Missing => Ok(None),
        HeaderField::Unreadable => Err(invalid("invalid x-project-id header"@)),
        HeaderField::Text(v) => match uuid_parse(v@) {
            Some(x) => Ok(Some(x)),
            None => Err(invalid("invalid x-project-id header"@)),
        },
    }
}

/// The scope of a project-level request: the query's project, else the
/// header's, else the session scope's own; `required` refuses none.  A
/// malformed header is refused even when the query names a project.
pub open spec fn scoped_project_rule(scope: TenantScope, header: HeaderField, query: Option<ProjectId>, required: bool) -> Result<
    TenantScope,
    ErrorV,
> {
    match project_header_rule(header) {
        Err(e) => Err(e),
        Ok(h) => {
            let p = match query {
                Some(q) => Some(q),
                None => match h {
                    Some(x) => Some(ProjectId(x)),
                    None => scope.project_id,
                },
            };
            if required && p is None {
                Err(invalid("project selector is required"@))
            } else {
                Ok(TenantScope { project_id: p, ..scope })
            }
        },
    }
}

pub fn scoped_project(scope: &TenantScope, header: &HeaderField, query: Option<ProjectId>, required: bool) -> (r: Result<
    TenantScope,
    AppError,
>)
    ensures
        match r {
            Ok(s) => scoped_project_rule(*scope, *header, query, required) == Ok::<TenantScope, ErrorV>(s),
            Err(e) => scoped_project_rule(*scope, *header, query, required) == Err::<TenantScope, ErrorV>(e@),
        },
{
    let from_header = match header {
        HeaderField::Missing => None,
        HeaderField::Unreadable => return Err(AppError::invalid_request("invalid x-project-id header")),
        HeaderField::Text(v) => match uuid_value(v.as_str()) {
            Some(x) => Some(ProjectId(x)),
            None => return Err(AppError::invalid_request("invalid x-project-id header")),
        },
    };
    let project_id = match query {
        Some(q) => Some(q),
        None => match from_header {
            Some(x) => Some(x),
            None => scope.project_id,
        },
    };
    if required && project_id.is_none() {
        return Err(AppError::invalid_request("project selector is required"));
    }
    Ok(TenantScope { operator_id: scope.operator_id, tenant_id: scope.tenant_id, project_id })
}

} // verus!
