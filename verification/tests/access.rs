use geo_core::auth::{
    hash_token, normalize_email, normalize_host, Membership, MemoryAuthRepository, Operator, Role, User,
    DEVELOPMENT_OPERATOR_UUID, DEVELOPMENT_TENANT_UUID, DEVELOPMENT_USER_UUID,
};
use geo_core::config::{env_bool, parse_origins, validate_for_memory_mode, ConfigError};
use geo_core::context::{
    auth_request_input, check_csrf, cookie_value, host_from_headers, parse_if_match, parse_project_limit,
    require_project_writer, resolve_auth_context, scope_from_headers, scoped_project, tenant_selector, validate_origin_headers,
    validate_origin_headers_with_config, AuthContext, HeaderField, OriginConfig,
};
use geo_core::login::{cleared_session_cookies, session_cookie};
use geo_core::ids::{OperatorId, ProjectId, TenantId, TenantScope, UserId};
use geo_core::ErrorCode;

fn text(s: &str) -> HeaderField {
    HeaderField::Text(s.to_owned())
}

fn dev_store() -> MemoryAuthRepository {
    MemoryAuthRepository::development_with_password("secret").expect("store")
}

fn login(store: &mut MemoryAuthRepository) -> String {
    let identity = store
        .authenticate(OperatorId(DEVELOPMENT_OPERATOR_UUID), " Demo@Localhost ", "secret")
        .unwrap()
        .expect("identity");
    assert_eq!(identity.memberships.len(), 1);
    let credentials = store.create_session(OperatorId(DEVELOPMENT_OPERATOR_UUID), identity.user.id, 3600).unwrap();
    credentials.token
}

#[test]
fn roles_round_trip_and_read_only_cannot_write() {
    for role in [
        Role::CustomerAdmin,
        Role::CustomerMember,
        Role::CustomerReadOnly,
        Role::Operator,
        Role::ResourceAdmin,
        Role::OemAdmin,
    ] {
        assert_eq!(Role::parse(role.as_str()).unwrap(), role);
    }
    assert!(!Role::CustomerReadOnly.can_write());
    assert!(Role::CustomerMember.can_write());
    let error = Role::parse("owner").unwrap_err();
    assert_eq!(error.code, ErrorCode::Internal);
    assert_eq!(error.message, "invalid role in database: owner");
}

#[test]
fn hosts_and_addresses_are_normalised() {
    assert_eq!(normalize_host("  LocalHost:8080.. "), "localhost:8080");
    assert_eq!(normalize_email(" Demo@LocalHost ").unwrap(), "demo@localhost");
    assert_eq!(normalize_email("no-at-sign").unwrap_err().message, "email must be a valid address");
    assert_eq!(hash_token("abc"), "ba7816bf8f01cfea414140de5dae2223b00361a396177a9cb410ff61f20015ad");
}

#[test]
fn a_wrong_password_signs_nobody_in() {
    let store = dev_store();
    assert!(store.authenticate(OperatorId(DEVELOPMENT_OPERATOR_UUID), "demo@localhost", "wrong").unwrap().is_none());
    assert!(store.authenticate(OperatorId(7), "demo@localhost", "secret").unwrap().is_none());
}

#[test]
fn a_created_session_is_found_by_its_token_and_revocation_ends_it() {
    let mut store = dev_store();
    let token = login(&mut store);
    let operator = OperatorId(DEVELOPMENT_OPERATOR_UUID);
    let session = store.find_session(operator, &token).unwrap().expect("found");
    assert_eq!(session.token_hash(), hash_token(&token));
    assert!(session.is_active_at(session.created_at));
    assert!(store.find_session(OperatorId(9), &token).unwrap().is_none());
    store.revoke_session(operator, session.id).unwrap();
    let revoked = store.find_session(operator, &token).unwrap().expect("still stored");
    assert!(!revoked.is_active_at(revoked.created_at));
}

#[test]
fn an_unknown_user_gets_no_session() {
    let mut store = dev_store();
    let error = store.create_session(OperatorId(DEVELOPMENT_OPERATOR_UUID), UserId(99), 60).unwrap_err();
    assert_eq!(error.code, ErrorCode::Unauthorized);
    assert_eq!(error.message, "user does not exist");
}

#[test]
fn inserts_refuse_duplicates() {
    let mut store = MemoryAuthRepository::new();
    let operator = Operator::new(OperatorId(1), "acme".to_owned(), "Acme".to_owned()).unwrap();
    store.insert_operator(operator, &vec!["acme.example".to_owned(), "".to_owned()]).unwrap_err();
    let twin = Operator::new(OperatorId(2), "twin".to_owned(), "Twin".to_owned()).unwrap();
    let error = store.insert_operator(twin, &vec!["ACME.example.".to_owned()]).unwrap_err();
    assert_eq!(error.message, "operator host already exists");
    let user = User::new(UserId(5), OperatorId(1), "a@b.c".to_owned(), "A".to_owned(), "pw").unwrap();
    let error = store.insert_membership(Membership::new(UserId(5), OperatorId(1), TenantId(3), Role::CustomerAdmin)).unwrap_err();
    assert_eq!(error.message, "membership references an unknown identity");
    store.insert_user(user).unwrap();
    let dup = User::new(UserId(6), OperatorId(1), "A@B.C".to_owned(), "B".to_owned(), "pw").unwrap();
    assert_eq!(store.insert_user(dup).unwrap_err().message, "user email already exists for operator");
}

#[test]
fn the_request_is_resolved_from_server_records_only() {
    let mut store = dev_store();
    let token = login(&mut store);
    let cookie = text(&format!("theme=dark; geo_dev_session={token}"));
    let selector = text(&uuid::Uuid::from_u128(DEVELOPMENT_TENANT_UUID).to_string());
    let input = auth_request_input(&text("LOCALHOST:5173"), &cookie, &selector, None, true, Some("geo_dev_session")).unwrap();
    let auth = resolve_auth_context(&store, input).unwrap();
    assert_eq!(auth.scope, TenantScope::new(OperatorId(DEVELOPMENT_OPERATOR_UUID), TenantId(DEVELOPMENT_TENANT_UUID), None));
    assert_eq!(auth.user.id, UserId(DEVELOPMENT_USER_UUID));
    require_project_writer(&auth).unwrap();
    let other_tenant = text(&uuid::Uuid::from_u128(42).to_string());
    let input = auth_request_input(&text("localhost"), &cookie, &other_tenant, None, true, None).unwrap();
    let error = resolve_auth_context(&store, input).unwrap_err();
    assert_eq!(error.message, "user is not a member of the selected tenant");
    let input = auth_request_input(&text("example.com"), &cookie, &selector, None, true, None).unwrap();
    assert_eq!(resolve_auth_context(&store, input).unwrap_err().message, "request host is not configured");
}

fn context_for(store: &mut MemoryAuthRepository) -> AuthContext {
    let token = login(store);
    let cookie = text(&format!("geo_dev_session={token}"));
    let input = auth_request_input(&text("localhost"), &cookie, &HeaderField::Missing, None, false, None).unwrap();
    resolve_auth_context(store, input).unwrap()
}

#[test]
fn commands_need_an_allowed_origin_and_the_session_csrf_token() {
    let mut store = dev_store();
    let auth = context_for(&mut store);
    let config = OriginConfig::local_http();
    let host = text("localhost:8080");
    let csrf = text(auth.session.csrf_token());
    check_csrf(true, &text("http://LOCALHOST:5173/"), &host, &config, Some(&auth), &csrf).unwrap();
    let error = check_csrf(true, &text("https://evil.example"), &host, &config, Some(&auth), &csrf).unwrap_err();
    assert_eq!(error.message, "Origin is not in the configured allow-list");
    let error = check_csrf(true, &text("http://localhost:5173"), &host, &config, Some(&auth), &text("forged")).unwrap_err();
    assert_eq!(error.message, "invalid CSRF token");
    let error = check_csrf(true, &text("http://localhost:5173"), &host, &config, None, &csrf).unwrap_err();
    assert_eq!(error.code, ErrorCode::Unauthorized);
    check_csrf(false, &HeaderField::Missing, &host, &config, None, &HeaderField::Missing).unwrap();
}

#[test]
fn same_host_origins_ignore_ascii_case() {
    validate_origin_headers(&text("HTTP://LocalHost:8080"), &text("localhost:8080"), "http").unwrap();
    let error = validate_origin_headers(&text("null"), &text("localhost"), "http").unwrap_err();
    assert_eq!(error.message, "cross-origin requests are not allowed");
    let error = validate_origin_headers(&HeaderField::Missing, &text("localhost"), "http").unwrap_err();
    assert_eq!(error.message, "Origin header is required for state-changing requests");
    let same_host = OriginConfig::new("https".to_owned());
    let error = validate_origin_headers_with_config(&text("http://localhost"), &text("localhost"), &same_host).unwrap_err();
    assert_eq!(error.message, "Origin does not match the request host");
    assert_eq!(host_from_headers(&text(" . ")).unwrap_err().message, "Host header is required");
}

#[test]
fn cookies_selectors_limits_and_revisions_are_read_exactly() {
    assert_eq!(cookie_value("a=1; b=2;c=3", "b").as_deref(), Some("2"));
    assert_eq!(cookie_value("a=1", "b"), None);
    let tenant = uuid::Uuid::from_u128(5).to_string();
    assert_eq!(tenant_selector(&HeaderField::Missing, Some(&format!("x=1&tenant_id={tenant}"))).unwrap(), Some(TenantId(5)));
    assert_eq!(tenant_selector(&HeaderField::Missing, None).unwrap(), None);
    assert_eq!(tenant_selector(&text("nope"), None).unwrap_err().message, "invalid tenant selector");
    assert_eq!(parse_project_limit(None).unwrap(), 50);
    assert_eq!(parse_project_limit(Some("100")).unwrap(), 100);
    assert_eq!(parse_project_limit(Some("0")).unwrap_err().message, "limit must be between 1 and 100");
    assert_eq!(parse_project_limit(Some("ten")).unwrap_err().message, "limit must be an integer");
    assert_eq!(parse_if_match(&text(" W/\"7\" ")).unwrap(), 7);
    assert_eq!(parse_if_match(&text("*")).unwrap_err().message, "If-Match must contain a numeric project revision");
    assert_eq!(parse_if_match(&HeaderField::Missing).unwrap_err().message, "If-Match header is required");
}

#[test]
fn settings_are_checked_before_memory_mode_starts() {
    assert_eq!(parse_origins(" http://a , ,http://b ".to_owned()).unwrap(), vec!["http://a", "http://b"]);
    let error = parse_origins(" , ".to_owned()).unwrap_err();
    assert_eq!(error.message(), "invalid GEO_ALLOWED_ORIGINS:  , ");
    assert!(env_bool("GEO_READY_ON_START", Some("YES".to_owned()), false).unwrap());
    assert!(!env_bool("GEO_READY_ON_START", None, false).unwrap());
    assert!(matches!(env_bool("GEO_READY_ON_START", Some("maybe".to_owned()), true), Err(ConfigError::Invalid { .. })));
    assert!(matches!(validate_for_memory_mode(false, &Some("pw".to_owned())), Err(ConfigError::DevelopmentMustBindLoopback)));
    assert!(matches!(validate_for_memory_mode(true, &Some(String::new())), Err(ConfigError::MissingDevelopmentPassword)));
    assert_eq!(validate_for_memory_mode(true, &Some("pw".to_owned())).unwrap(), "pw");
}

#[test]
fn development_headers_name_the_scope() {
    let op = "11111111-1111-4111-8111-111111111111";
    let tenant = "22222222-2222-4222-8222-222222222222";
    let project = "33333333-3333-4333-8333-333333333333";
    let scope = scope_from_headers(
        &HeaderField::Text(op.to_owned()),
        &HeaderField::Text(tenant.to_owned()),
        &HeaderField::Text(project.to_owned()),
    )
    .unwrap();
    assert_eq!(scope.operator_id.0, uuid::Uuid::parse_str(op).unwrap().as_u128());
    assert_eq!(scope.tenant_id.0, uuid::Uuid::parse_str(tenant).unwrap().as_u128());
    assert_eq!(scope.project_id.map(|p| p.0), Some(uuid::Uuid::parse_str(project).unwrap().as_u128()));

    let missing = scope_from_headers(&HeaderField::Missing, &HeaderField::Missing, &HeaderField::Missing).unwrap_err();
    assert_eq!(missing.message, "missing x-operator-id header");
    let bad = scope_from_headers(&HeaderField::Text(op.to_owned()), &HeaderField::Text("nope".to_owned()), &HeaderField::Missing)
        .unwrap_err();
    assert_eq!(bad.code, ErrorCode::InvalidRequest);
    assert!(bad.message.starts_with("invalid x-tenant-id header: "), "{}", bad.message);
    assert_ne!(bad.message, "invalid x-tenant-id header: nope", "the parser's own message follows the prefix");
    let unreadable =
        scope_from_headers(&HeaderField::Text(op.to_owned()), &HeaderField::Text(tenant.to_owned()), &HeaderField::Unreadable)
            .unwrap_err();
    assert_eq!(unreadable.message, "invalid x-project-id header");
}

#[test]
fn the_query_project_outranks_the_header_and_the_session() {
    let base = TenantScope::new(OperatorId(1), TenantId(2), Some(ProjectId(3)));
    let header = HeaderField::Text("44444444-4444-4444-8444-444444444444".to_owned());
    let from_query = scoped_project(&base, &header, Some(ProjectId(9)), true).unwrap();
    assert_eq!(from_query.project_id, Some(ProjectId(9)));
    let from_header = scoped_project(&base, &header, None, true).unwrap();
    assert_eq!(from_header.project_id.map(|p| p.0), Some(0x44444444_4444_4444_8444_444444444444));
    let from_session = scoped_project(&base, &HeaderField::Missing, None, true).unwrap();
    assert_eq!(from_session.project_id, Some(ProjectId(3)));
    let unscoped = TenantScope::new(OperatorId(1), TenantId(2), None);
    let refused = scoped_project(&unscoped, &HeaderField::Missing, None, true).unwrap_err();
    assert_eq!(refused.message, "project selector is required");
    assert!(scoped_project(&unscoped, &HeaderField::Missing, None, false).unwrap().project_id.is_none());
    let malformed = scoped_project(&base, &HeaderField::Text("x".to_owned()), Some(ProjectId(9)), false).unwrap_err();
    assert_eq!(malformed.message, "invalid x-project-id header");
}

#[test]
fn a_login_checks_origin_host_and_credentials_before_opening_a_session() {
    let mut store = dev_store();
    let config = OriginConfig::local_http();
    let origin = HeaderField::Text("http://localhost:5173".to_owned());
    let host = HeaderField::Text("localhost:5173".to_owned());
    let done = geo_core::login::login(&mut store, &origin, &host, &config, "demo@localhost", "secret", false)
        .expect("a development login");
    assert_eq!(done.cookie, format!("geo_dev_session={}; Path=/; Max-Age=43200; HttpOnly; SameSite=Lax", done.credentials.token));
    assert!(store.find_session(OperatorId(DEVELOPMENT_OPERATOR_UUID), &done.credentials.token).unwrap().is_some());

    let wrong = geo_core::login::login(&mut store, &origin, &host, &config, "demo@localhost", "nope", false).unwrap_err();
    assert_eq!(wrong.code, ErrorCode::Unauthorized);
    assert_eq!(wrong.message, "invalid email or password");
    let elsewhere = HeaderField::Text("example.com".to_owned());
    let unknown = geo_core::login::login(&mut store, &origin, &elsewhere, &config, "demo@localhost", "secret", false)
        .unwrap_err();
    assert_eq!(unknown.message, "request host is not configured");
    let hostile = HeaderField::Text("http://evil.example".to_owned());
    assert_eq!(
        geo_core::login::login(&mut store, &hostile, &host, &config, "demo@localhost", "secret", false).unwrap_err().code,
        ErrorCode::Forbidden
    );
}

#[test]
fn session_cookies_are_secure_only_when_durable_and_logout_clears_both() {
    assert_eq!(
        session_cookie("t0k", true),
        "__Host-geo_session=t0k; Path=/; Max-Age=43200; HttpOnly; SameSite=Lax; Secure"
    );
    let (dev, prod) = cleared_session_cookies();
    assert_eq!(dev, "geo_dev_session=; Path=/; Max-Age=0; HttpOnly; SameSite=Lax");
    assert!(prod.starts_with("__Host-geo_session=; ") && prod.ends_with("; Secure"));
}

#[test]
fn normal_forms_are_fixed_points_and_ignore_ascii_case() {
    assert_eq!(normalize_host(" LocalHost. "), "localhost");
    assert_eq!(normalize_host(" EXAMPLE.Com.. "), normalize_host(" example.COM.. "));
    assert_eq!(normalize_host("localhost"), "localhost");
    let once = normalize_email("  Ops@Example.COM ").unwrap();
    assert_eq!(once, "ops@example.com");
    assert_eq!(normalize_email(&once).unwrap(), once);
}

#[test]
fn storage_keys_tell_scopes_apart() {
    let operator = OperatorId(0x0123_4567_89ab_cdef_0123_4567_89ab_cdef);
    let tenant = TenantId(2);
    let whole = TenantScope::new(operator, tenant, None);
    let one = TenantScope::new(operator, tenant, Some(ProjectId(3)));
    let other = TenantScope::new(operator, tenant, Some(ProjectId(4)));
    assert_eq!(
        whole.storage_key(),
        "01234567-89ab-cdef-0123-456789abcdef:00000000-0000-0000-0000-000000000002"
    );
    assert_eq!(whole.storage_key(), whole.tenant_id().storage_key());
    assert_eq!(one.storage_key(), format!("{}:00000000-0000-0000-0000-000000000003", whole.storage_key()));
    assert_ne!(one.storage_key(), other.storage_key());
    assert_ne!(one.storage_key(), whole.storage_key());
}
