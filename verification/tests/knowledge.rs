use geo_core::digest::sha256_hex;
use geo_core::ids::{OperatorId, ProjectId, TenantId, TenantScope};
use geo_core::knowledge::{
    ImportItem, ImportStatus, KnowledgeAnswerStatus, KnowledgePurpose, KnowledgeSearchRequest, SourceKind,
    UploadSessionCommand, UploadSessionState,
};
use geo_core::knowledge_store::MemoryKnowledgeRepository;
use geo_core::ErrorCode;

fn fresh() -> u128 {
    uuid::Uuid::new_v4().as_u128()
}

fn scope() -> TenantScope {
    TenantScope::new(OperatorId(fresh()), TenantId(fresh()), Some(ProjectId(fresh())))
}

fn text_item(id: &str, purpose: KnowledgePurpose, text: &str) -> ImportItem {
    ImportItem {
        client_item_id: id.to_owned(),
        kind: SourceKind::Text,
        name: id.to_owned(),
        purpose,
        text: Some(text.to_owned()),
        url: None,
        object_id: None,
        knowledge_release_id: None,
    }
}

fn search(query: &str, purpose: KnowledgePurpose) -> KnowledgeSearchRequest {
    KnowledgeSearchRequest { query: query.to_owned(), purpose, limit: 10, knowledge_release_id: None }
}

#[test]
fn text_import_creates_chunks_release_and_evidence_only_answer() {
    let mut repository = MemoryKnowledgeRepository::new();
    let scope = scope();
    let accepted = repository
        .import_batch(
            &scope,
            vec![text_item(
                "intro",
                KnowledgePurpose::Public,
                "Acme Widget has a two year warranty.\n\nIt is available in blue.",
            )],
        )
        .unwrap();
    assert!(accepted.items[0].release.is_some());
    let answer = repository.ask(&scope, search("warranty", KnowledgePurpose::Public)).unwrap();
    assert_eq!(answer.mode, "evidence_only");
    assert_eq!(answer.evidence.len(), 1);
}

#[test]
fn internal_source_is_not_in_public_search() {
    let mut repository = MemoryKnowledgeRepository::new();
    let scope = scope();
    repository
        .import_batch(
            &scope,
            vec![text_item("secret", KnowledgePurpose::Internal, "Internal launch date is next Tuesday.")],
        )
        .unwrap();
    assert!(repository.search(&scope, search("launch", KnowledgePurpose::Public)).unwrap().evidence.is_empty());
}

#[test]
fn upload_checks_size_checksum_and_idempotent_completion() {
    let mut repository = MemoryKnowledgeRepository::new();
    let scope = scope();
    let bytes = b"Verified upload text".to_vec();
    let session = repository
        .create_upload_session(
            &scope,
            UploadSessionCommand {
                filename: "verified.txt".to_owned(),
                declared_media_type: "text/plain".to_owned(),
                expected_size: bytes.len() as u64,
                expected_sha256: sha256_hex(&bytes),
                purpose: KnowledgePurpose::Public,
            },
        )
        .unwrap();
    repository.put_upload_content(&scope, session.upload_session_id, bytes).unwrap();
    let first = repository.complete_upload(&scope, session.upload_session_id, "same").unwrap();
    let replay = repository.complete_upload(&scope, session.upload_session_id, "same").unwrap();
    assert_eq!(first.release.unwrap().knowledge_release_id, replay.release.unwrap().knowledge_release_id);
}

#[test]
fn cross_tenant_lookup_is_not_found() {
    let mut repository = MemoryKnowledgeRepository::new();
    let scope = scope();
    let other = TenantScope::new(scope.operator_id, TenantId(fresh()), scope.project_id);
    let session = repository
        .create_upload_session(
            &scope,
            UploadSessionCommand {
                filename: "one.txt".to_owned(),
                declared_media_type: "text/plain".to_owned(),
                expected_size: 1,
                expected_sha256: sha256_hex(b"x"),
                purpose: KnowledgePurpose::Public,
            },
        )
        .unwrap();
    assert!(repository.put_upload_content(&other, session.upload_session_id, b"x".to_vec()).is_err());
}

#[test]
fn an_answer_without_evidence_says_so() {
    let mut repository = MemoryKnowledgeRepository::new();
    let scope = scope();
    repository.import_batch(&scope, vec![text_item("intro", KnowledgePurpose::Public, "Blue widgets.")]).unwrap();
    let answer = repository.ask(&scope, search("warranty", KnowledgePurpose::Public)).unwrap();
    assert_eq!(answer.answer_status, KnowledgeAnswerStatus::InsufficientEvidence);
    assert_eq!(answer.answer, "当前资料没有这项信息");
    assert_eq!(answer.capability_missing.as_deref(), Some("llm_answering"));
}

#[test]
fn an_internal_search_sees_internal_sources_and_matches_case_insensitively() {
    let mut repository = MemoryKnowledgeRepository::new();
    let scope = scope();
    repository
        .import_batch(&scope, vec![text_item("secret", KnowledgePurpose::Internal, "Internal LAUNCH date.")])
        .unwrap();
    let found = repository.search(&scope, search("launch", KnowledgePurpose::Internal)).unwrap();
    assert_eq!(found.evidence.len(), 1);
    assert_eq!(found.evidence[0].purpose, KnowledgePurpose::Internal);
}

#[test]
fn an_empty_query_is_refused() {
    let repository = MemoryKnowledgeRepository::new();
    let error = repository.search(&scope(), search("   ", KnowledgePurpose::Public)).unwrap_err();
    assert_eq!(error.code, ErrorCode::InvalidRequest);
    assert_eq!(error.message, "query must not be empty");
}

#[test]
fn a_search_without_a_release_finds_nothing() {
    let repository = MemoryKnowledgeRepository::new();
    let result = repository.search(&scope(), search("anything", KnowledgePurpose::Public)).unwrap();
    assert!(result.knowledge_release_id.is_none());
    assert!(result.evidence.is_empty());
}

#[test]
fn a_resource_without_a_project_is_refused() {
    let repository = MemoryKnowledgeRepository::new();
    let tenant_wide = TenantScope::new(OperatorId(fresh()), TenantId(fresh()), None);
    let error = repository.list_sources(&tenant_wide).unwrap_err();
    assert_eq!(error.message, "project_id is required for knowledge resources");
}

#[test]
fn a_repeated_client_item_replays_and_a_changed_one_conflicts() {
    let mut repository = MemoryKnowledgeRepository::new();
    let scope = scope();
    let first = repository.import_batch(&scope, vec![text_item("one", KnowledgePurpose::Public, "Same text.")]).unwrap();
    let again = repository.import_batch(&scope, vec![text_item("one", KnowledgePurpose::Public, "Same text.")]).unwrap();
    assert_eq!(
        first.items[0].source.as_ref().unwrap().source_id,
        again.items[0].source.as_ref().unwrap().source_id
    );
    let changed =
        repository.import_batch(&scope, vec![text_item("one", KnowledgePurpose::Public, "Other text.")]).unwrap();
    assert_eq!(changed.items[0].status, ImportStatus::Failed);
    assert_eq!(changed.items[0].error.as_ref().unwrap().code, ErrorCode::Conflict);
    assert_eq!(repository.list_sources(&scope).unwrap().len(), 1);
}

#[test]
fn each_release_numbers_one_past_the_last() {
    let mut repository = MemoryKnowledgeRepository::new();
    let scope = scope();
    let a = repository.import_batch(&scope, vec![text_item("a", KnowledgePurpose::Public, "First.")]).unwrap();
    let b = repository.import_batch(&scope, vec![text_item("b", KnowledgePurpose::Public, "Second.")]).unwrap();
    let first = a.items[0].release.as_ref().unwrap();
    let second = b.items[0].release.as_ref().unwrap();
    assert_eq!(first.sequence, 1);
    assert_eq!(second.sequence, 2);
    assert_eq!(second.previous_release_id, Some(first.knowledge_release_id));
    let current = repository.current_release(&scope).unwrap();
    assert_eq!(current.knowledge_release_id, Some(second.knowledge_release_id));
    assert_eq!(current.sequence, Some(2));
}

#[test]
fn a_mismatched_upload_fails_the_session() {
    let mut repository = MemoryKnowledgeRepository::new();
    let scope = scope();
    let session = repository
        .create_upload_session(
            &scope,
            UploadSessionCommand {
                filename: "a.txt".to_owned(),
                declared_media_type: "text/plain".to_owned(),
                expected_size: 3,
                expected_sha256: sha256_hex(b"abc"),
                purpose: KnowledgePurpose::Public,
            },
        )
        .unwrap();
    repository.put_upload_content(&scope, session.upload_session_id, b"abd".to_vec()).unwrap();
    let error = repository.complete_upload(&scope, session.upload_session_id, "k").unwrap_err();
    assert_eq!(error.message, "uploaded content size or sha256 does not match upload session");
    let error = repository.complete_upload(&scope, session.upload_session_id, "   ").unwrap_err();
    assert_eq!(error.message, "Idempotency-Key must not be empty");
}

#[test]
fn a_pdf_upload_waits_for_a_document_parser() {
    let mut repository = MemoryKnowledgeRepository::new();
    let scope = scope();
    let bytes = b"%PDF-1.7".to_vec();
    let session = repository
        .create_upload_session(
            &scope,
            UploadSessionCommand {
                filename: "brochure.pdf".to_owned(),
                declared_media_type: "application/pdf".to_owned(),
                expected_size: bytes.len() as u64,
                expected_sha256: sha256_hex(&bytes),
                purpose: KnowledgePurpose::Public,
            },
        )
        .unwrap();
    assert_eq!(session.state, UploadSessionState::Created);
    repository.put_upload_content(&scope, session.upload_session_id, bytes).unwrap();
    let accepted = repository.complete_upload(&scope, session.upload_session_id, "pdf").unwrap();
    assert_eq!(accepted.status, ImportStatus::Failed);
    assert_eq!(accepted.error.as_ref().unwrap().code, ErrorCode::CapabilityMissing);
    assert_eq!(accepted.error.as_ref().unwrap().message, "document_parser is not configured");
}

#[test]
fn an_imported_item_replays_after_other_calls_under_its_trimmed_id() {
    let mut repository = MemoryKnowledgeRepository::new();
    let scope = scope();
    let first = repository.import_batch(&scope, vec![text_item("keep", KnowledgePurpose::Public, "Kept text.")]).unwrap();
    repository.import_batch(&scope, vec![text_item("other", KnowledgePurpose::Public, "Other text.")]).unwrap();
    repository
        .create_upload_session(
            &scope,
            UploadSessionCommand {
                filename: "later.txt".to_owned(),
                declared_media_type: "text/plain".to_owned(),
                expected_size: 3,
                expected_sha256: sha256_hex(b"abc"),
                purpose: KnowledgePurpose::Public,
            },
        )
        .unwrap();
    let sources = repository.list_sources(&scope).unwrap().len();
    let mut spaced = text_item("  keep ", KnowledgePurpose::Public, "Kept text.");
    spaced.client_item_id = "  keep ".to_owned();
    let replay = repository.import_batch(&scope, vec![text_item("keep", KnowledgePurpose::Public, "Kept text.")]).unwrap();
    assert_eq!(replay.items[0].status, first.items[0].status);
    assert_eq!(
        replay.items[0].source.as_ref().unwrap().source_id,
        first.items[0].source.as_ref().unwrap().source_id
    );
    let conflict = repository.import_batch(&scope, vec![spaced]).unwrap();
    assert_eq!(conflict.items[0].client_item_id, "  keep ");
    assert_eq!(conflict.items[0].status, ImportStatus::Failed);
    assert_eq!(conflict.items[0].error.as_ref().unwrap().code, ErrorCode::Conflict);
    assert!(conflict.items[0].source.is_none());
    assert_eq!(repository.list_sources(&scope).unwrap().len(), sources);
}

#[test]
fn a_batch_reports_every_item_in_place() {
    let mut repository = MemoryKnowledgeRepository::new();
    let scope = scope();
    let mut blank = text_item("", KnowledgePurpose::Public, "x");
    blank.client_item_id = "   ".to_owned();
    let out = repository
        .import_batch(
            &scope,
            vec![
                text_item("a", KnowledgePurpose::Public, "First."),
                blank,
                text_item("a", KnowledgePurpose::Public, "First."),
                text_item("b", KnowledgePurpose::Public, "   "),
            ],
        )
        .unwrap();
    let ids: Vec<&str> = out.items.iter().map(|a| a.client_item_id.as_str()).collect();
    assert_eq!(ids, vec!["a", "   ", "a", "b"]);
    assert_eq!(out.items[0].status, ImportStatus::Succeeded);
    assert_eq!(out.items[1].status, ImportStatus::Failed);
    assert_eq!(out.items[2].source.as_ref().unwrap().source_id, out.items[0].source.as_ref().unwrap().source_id);
    assert_eq!(out.items[3].status, ImportStatus::Failed);
}
