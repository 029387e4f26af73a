use geo_core::context::HeaderField;
use geo_core::idempotency::{
    begin_command, body_hash, cache_overflow, is_command_method, request_too_large, CommandGate, IdempotencyDecision,
    IdempotencyStore, MemoryIdempotencyStore, StoredResponse, MAX_IDEMPOTENCY_REQUEST_BYTES,
};
use geo_core::ids::{OperatorId, ProjectId, TenantId, TenantScope};
use geo_core::ErrorCode;

fn scope() -> TenantScope {
    TenantScope::new(OperatorId(1), TenantId(2), Some(ProjectId(3)))
}

fn response() -> StoredResponse {
    StoredResponse { status: 201, content_type: "application/json".to_owned(), body: b"{}".to_vec() }
}

#[test]
fn idempotency_binds_key_to_scope_and_body_hash() {
    let mut store = MemoryIdempotencyStore::new();
    let hash = body_hash(b"{\"a\":1}");
    let token = match store.begin(&scope(), "key", &hash).unwrap() {
        IdempotencyDecision::New(token) => token,
        other => panic!("expected a new reservation, got {other:?}"),
    };
    assert!(matches!(store.begin(&scope(), "key", &hash).unwrap(), IdempotencyDecision::InFlight));
    let other = store.begin(&scope(), "key", &body_hash(b"{}")).unwrap_err();
    assert_eq!(other.code, ErrorCode::Conflict);
    store.complete(&token, response()).unwrap();
    match store.begin(&scope(), "key", &hash).unwrap() {
        IdempotencyDecision::Replay(stored) => {
            assert_eq!(stored.status, 201);
            assert_eq!(stored.body, b"{}".to_vec());
        },
        other => panic!("expected a replay, got {other:?}"),
    }
    let elsewhere = TenantScope::new(OperatorId(1), TenantId(9), Some(ProjectId(3)));
    assert!(matches!(store.begin(&elsewhere, "key", &hash).unwrap(), IdempotencyDecision::New(_)));
    assert_eq!(store.len(), 2);
}

#[test]
fn empty_keys_and_missing_reservations_are_refused() {
    let mut store = MemoryIdempotencyStore::new();
    assert_eq!(store.begin(&scope(), "  ", "h").unwrap_err().message, "Idempotency-Key must not be empty");
    assert_eq!(store.begin(&scope(), "k", " ").unwrap_err().message, "request body hash must not be empty");
    assert!(store.is_empty());
    let stray = geo_core::idempotency::IdempotencyToken {
        scope: "nowhere".to_owned(),
        key: "k".to_owned(),
        body_hash: "h".to_owned(),
    };
    let error = store.complete(&stray, response()).unwrap_err();
    assert_eq!(error.message, "idempotency reservation is missing or belongs to another request");
}

#[test]
fn the_body_hash_is_the_hex_sha256() {
    assert_eq!(body_hash(b""), "e3b0c44298fc1c149afbf4c8996fb92427ae41e4649b934ca495991b7852b855");
}

#[test]
fn the_command_boundary_reserves_replays_and_refuses() {
    let mut store = MemoryIdempotencyStore::new();
    let key = HeaderField::Text(" k-1 ".to_owned());
    let token = match begin_command(&mut store, &scope(), &key, b"{\"a\":1}") {
        CommandGate::Proceed(token) => token,
        other => panic!("expected a reservation, got {other:?}"),
    };
    assert_eq!(token.key, "k-1");
    assert_eq!(token.body_hash, body_hash(b"{\"a\":1}"));
    match begin_command(&mut store, &scope(), &key, b"{\"a\":1}") {
        CommandGate::Refuse(e) => {
            assert_eq!(e.code, ErrorCode::Conflict);
            assert_eq!(e.message, "an identical request with this Idempotency-Key is already being processed");
        },
        other => panic!("expected a refusal, got {other:?}"),
    }
    store.complete(&token, response()).unwrap();
    assert!(matches!(begin_command(&mut store, &scope(), &key, b"{\"a\":1}"), CommandGate::Replay(r) if r.status == 201));
    match begin_command(&mut store, &scope(), &HeaderField::Missing, b"{}") {
        CommandGate::Refuse(e) => assert_eq!(e.message, "missing Idempotency-Key header"),
        other => panic!("expected a refusal, got {other:?}"),
    }
    assert_eq!(store.len(), 1);
}

#[test]
fn only_state_changing_methods_are_commands() {
    for m in ["POST", "PUT", "PATCH", "DELETE"] {
        assert!(is_command_method(m));
    }
    for m in ["GET", "HEAD", "OPTIONS", "post"] {
        assert!(!is_command_method(m));
    }
    assert_eq!(request_too_large().code, ErrorCode::InvalidRequest);
    assert_eq!(cache_overflow().code, ErrorCode::Internal);
    assert_eq!(MAX_IDEMPOTENCY_REQUEST_BYTES, 1_048_576);
}
