use geo_core::api::{estimate_project, project_start_operation_id, start_command, start_operation, EstimateState};
use geo_core::ids::{OperatorId, ProjectId, TenantId, TenantScope};
use geo_core::operation::{OperationResult, OperationStatus};
use geo_core::project::{
    InitialSource, InitialSourceKind, InitialSourceVisibility, ProjectCreate, ProjectSettings, ProjectStatus,
};
use geo_core::project_patch::{patch_command, ProjectPatchRequest};
use geo_core::project_store::MemoryProjectRepository;

fn fresh() -> u128 {
    uuid::Uuid::new_v4().as_u128()
}

fn startable_settings() -> ProjectSettings {
    ProjectSettings {
        brand_name: "Acme".to_owned(),
        market: "US".to_owned(),
        language: "en".to_owned(),
        initial_sources: vec![InitialSource {
            kind: InitialSourceKind::Url,
            value: "https://example.com".to_owned(),
            visibility: InitialSourceVisibility::Public,
            version_ref: None,
            content_hash: None,
        }],
        ..ProjectSettings::default()
    }
}

#[test]
fn injected_memory_start_failure_leaves_no_partial_start_state() {
    let mut repository = MemoryProjectRepository::new();
    let scope = TenantScope::new(OperatorId(fresh()), TenantId(fresh()), None);
    let project = repository
        .create(
            &scope,
            ProjectCreate {
                slug: Some("atomic-fault".to_owned()),
                display_name: "Atomic fault".to_owned(),
                settings: startable_settings(),
            },
        )
        .expect("draft");
    let frozen_hash = "0".repeat(64);
    let operation_id = fresh();
    let command = start_command(project.id, project.revision, "fault-key", frozen_hash.clone(), operation_id);
    let again = start_command(project.id, project.revision, "fault-key", frozen_hash.clone(), operation_id);
    repository.fail_next_start_for_test();
    assert!(repository.start(&scope, project.id, command, &frozen_hash).is_err());
    let after_failure = repository.get(&scope, project.id).expect("visible");
    assert_eq!(after_failure.status, ProjectStatus::Draft);
    assert!(after_failure.current_cycle_id.is_none());
    assert!(repository.get_start(&scope, project.id).is_none());
    assert!(repository.start(&scope, project.id, again, &frozen_hash).is_ok());
}

#[test]
fn a_replayed_start_answers_the_first_acceptance() {
    let mut repository = MemoryProjectRepository::new();
    let scope = TenantScope::new(OperatorId(fresh()), TenantId(fresh()), None);
    let project = repository
        .create(
            &scope,
            ProjectCreate { slug: None, display_name: "Replay".to_owned(), settings: startable_settings() },
        )
        .expect("draft");
    let hash = "a".repeat(64);
    let op = fresh();
    let first = repository
        .start(&scope, project.id, start_command(project.id, project.revision, "key", hash.clone(), op), &hash)
        .expect("started");
    let replay = repository
        .start(&scope, project.id, start_command(project.id, project.revision, "key", hash.clone(), op), &hash)
        .expect("replayed");
    assert_eq!(first.operation_id, replay.operation_id);
    assert_eq!(first.cycle_id, replay.cycle_id);
    let started = repository.get(&scope, project.id).expect("visible");
    assert_eq!(started.status, ProjectStatus::Active);
}

#[test]
fn the_start_operation_id_is_stable_and_a_version_five_uuid() {
    let scope = TenantScope::new(OperatorId(1), TenantId(2), Some(ProjectId(3)));
    let a = project_start_operation_id(&scope, "key-1");
    let b = project_start_operation_id(&scope, "key-1");
    let c = project_start_operation_id(&scope, "key-2");
    assert_eq!(a, b);
    assert_ne!(a, c);
    let parsed = uuid::Uuid::from_u128(a);
    assert_eq!(parsed.get_version_num(), 5);
    assert_eq!(parsed.get_variant(), uuid::Variant::RFC4122);
}

#[test]
fn the_start_operation_records_its_acceptance() {
    let mut repository = MemoryProjectRepository::new();
    let scope = TenantScope::new(OperatorId(fresh()), TenantId(fresh()), None);
    let project = repository
        .create(&scope, ProjectCreate { slug: None, display_name: "Op".to_owned(), settings: startable_settings() })
        .expect("draft");
    let hash = "b".repeat(64);
    let acceptance = repository
        .start(&scope, project.id, start_command(project.id, project.revision, "k", hash.clone(), 77), &hash)
        .expect("started");
    let operation_scope = TenantScope::new(scope.operator_id, scope.tenant_id, Some(project.id));
    let op = start_operation(operation_scope, &acceptance);
    assert_eq!(op.id, 77);
    assert_eq!(op.kind, "project.start");
    assert_eq!(op.status, OperationStatus::Queued);
    match op.result {
        Some(OperationResult::ProjectStart(a)) => assert_eq!(a.cycle_id, acceptance.cycle_id),
        _ => panic!("the operation carries the acceptance"),
    }
}

#[test]
fn an_estimate_knows_only_the_budget() {
    let settings = ProjectSettings { monthly_budget_minor: 1_000_00, monitoring_reserve_percent: 15, ..ProjectSettings::default() };
    let estimate = estimate_project(&settings, "c".repeat(64));
    assert_eq!(estimate.budget.currency, "CNY");
    assert_eq!(estimate.budget.monthly_limit_minor, 100_000);
    assert_eq!(estimate.budget.measurement_reserve_minor, 15_000);
    assert_eq!(estimate.estimator_version, "w02-prerequisites-unknown-v1");
    assert_eq!(estimate.coverage.documents.state, EstimateState::Unknown);
    assert_eq!(estimate.blockers.len(), 4);
    assert_eq!(estimate.blockers[3].code, "pricing_snapshot_unavailable");
    assert_eq!(estimate.assumptions.len(), 2);
}

#[test]
fn an_estimate_reserve_rounds_down() {
    let settings = ProjectSettings { monthly_budget_minor: 99, monitoring_reserve_percent: 33, ..ProjectSettings::default() };
    let estimate = estimate_project(&settings, String::new());
    assert_eq!(estimate.budget.measurement_reserve_minor, 32);
}

fn rename(name: &str) -> ProjectPatchRequest {
    let mut body = ProjectPatchRequest {
        revision: None,
        slug: None,
        display_name: None,
        brand_name: None,
        product_name: None,
        market: None,
        language: None,
        target_audience: None,
        competitors: None,
        initial_sources: None,
        resource_mode: None,
        budget_currency: None,
        monthly_budget_minor: None,
        monitoring_reserve_percent: None,
        report_timezone: None,
        report_schedule: None,
        objective: None,
        document_scope: None,
        distribution_scope: None,
        settings: None,
    };
    body.display_name = Some(name.to_owned());
    body
}

#[test]
fn an_update_consumes_its_revision() {
    let mut repository = MemoryProjectRepository::new();
    let scope = TenantScope::new(OperatorId(fresh()), TenantId(fresh()), None);
    let project = repository
        .create(&scope, ProjectCreate { slug: None, display_name: "Before".to_owned(), settings: startable_settings() })
        .expect("draft");
    let revision = project.revision;
    let patch = patch_command(rename("After"), revision).unwrap();
    let updated = repository.update(&scope, project.id, revision, patch).expect("updated");
    assert_eq!(updated.project.revision, revision + 1);
    assert_eq!(updated.project.display_name, "After");
    let stale = patch_command(rename("Again"), revision).unwrap();
    let conflict = repository.update(&scope, project.id, revision, stale).unwrap_err();
    assert_eq!(conflict.code, geo_core::ErrorCode::Conflict);
    assert_eq!(
        conflict.message,
        format!("project revision conflict: expected {revision}, current {}", revision + 1)
    );
    let other_tenant = TenantScope::new(scope.operator_id, TenantId(fresh()), None);
    assert!(repository.get(&other_tenant, project.id).is_none());
    let hidden = patch_command(rename("Hijack"), revision + 1).unwrap();
    assert_eq!(repository.update(&other_tenant, project.id, revision + 1, hidden).unwrap_err().code, geo_core::ErrorCode::NotFound);
}

#[test]
fn a_start_replays_after_other_calls_and_other_requests_conflict() {
    let mut repository = MemoryProjectRepository::new();
    let scope = TenantScope::new(OperatorId(fresh()), TenantId(fresh()), None);
    let project = repository
        .create(&scope, ProjectCreate { slug: None, display_name: "Later".to_owned(), settings: startable_settings() })
        .expect("draft");
    let hash = "b".repeat(64);
    let op = fresh();
    let first = repository
        .start(&scope, project.id, start_command(project.id, project.revision, "key", hash.clone(), op), &hash)
        .expect("started");
    repository
        .create(&scope, ProjectCreate { slug: None, display_name: "Between".to_owned(), settings: startable_settings() })
        .expect("another draft");
    let replay = repository
        .start(&scope, project.id, start_command(project.id, project.revision, "key", hash.clone(), fresh()), &hash)
        .expect("replayed");
    assert_eq!(first.operation_id, replay.operation_id);
    assert_eq!(first.config_revision_id, replay.config_revision_id);
    let other_hash = "c".repeat(64);
    let reused = repository
        .start(&scope, project.id, start_command(project.id, project.revision, "key", other_hash.clone(), op), &other_hash)
        .unwrap_err();
    assert_eq!(reused.code, geo_core::ErrorCode::Conflict);
    assert_eq!(reused.message, "Idempotency-Key was already used with a different project start request");
    let other_key = repository
        .start(&scope, project.id, start_command(project.id, project.revision, "other", hash.clone(), op), &hash)
        .unwrap_err();
    assert_eq!(other_key.code, geo_core::ErrorCode::Conflict);
    assert_eq!(other_key.message, "project has already been started");
}

#[test]
fn validated_settings_validate_to_themselves() {
    let messy = ProjectSettings {
        brand_name: "  Acme  ".to_owned(),
        market: " US".to_owned(),
        language: "en ".to_owned(),
        budget_currency: " usd ".to_owned(),
        competitors: vec![" Rival ".to_owned()],
        initial_sources: vec![InitialSource {
            kind: InitialSourceKind::Url,
            value: " https://example.com ".to_owned(),
            visibility: InitialSourceVisibility::Public,
            version_ref: None,
            content_hash: Some(" ABCDEF0123456789abcdef ".to_owned()),
        }],
        ..ProjectSettings::default()
    };
    let once = messy.validate_draft().expect("valid");
    assert_eq!(once.brand_name, "Acme");
    assert_eq!(once.budget_currency, "USD");
    let shown = format!("{:?}", once);
    let twice = once.validate_draft().expect("still valid");
    assert_eq!(format!("{:?}", twice), shown);
}

#[test]
fn a_created_project_gets_a_version_four_id() {
    let mut repository = MemoryProjectRepository::new();
    let scope = TenantScope::new(OperatorId(fresh()), TenantId(fresh()), None);
    let project = repository
        .create(&scope, ProjectCreate { slug: None, display_name: "Ids".to_owned(), settings: startable_settings() })
        .expect("draft");
    let id = uuid::Uuid::from_u128(project.id.0);
    assert_eq!(id.get_version_num(), 4);
    assert_eq!(id.get_variant(), uuid::Variant::RFC4122);
}
