use geo_core::agent::{
    AppendMessage, CreateConversation, RecordToolCall, Run, RunCompletion, RunStatus, RuntimeCapability, StoreCheckpoint,
    ToolCallDecision, ToolCallOutcome, TurnStatus, MAX_MESSAGE_CHARS,
};
use geo_core::agent_http::{events_cursor, idempotency_key_hash, narrowed_scope, passes_live, replayed_through};
use geo_core::agent_store::MemoryAgentRepository;
use geo_core::context::HeaderField;
use geo_core::ids::{OperatorId, ProjectId, TenantId, TenantScope};
use geo_core::knowledge::{KnowledgePurpose, KnowledgeSearchRequest};
use geo_core::knowledge_store::MemoryKnowledgeRepository;
use geo_core::runtime::{HostOp, HostOpErrorCode, RepositoryHostOps};
use geo_core::{AppError, ErrorCode};

fn fresh() -> u128 {
    uuid::Uuid::new_v4().as_u128()
}

fn scope() -> TenantScope {
    TenantScope::new(OperatorId(fresh()), TenantId(fresh()), Some(ProjectId(fresh())))
}

fn message(content: &str) -> AppendMessage {
    AppendMessage { content: content.to_owned(), attachments: Vec::new(), metadata: "null".to_owned() }
}

fn accepted_run(repository: &mut MemoryAgentRepository, scope: &TenantScope) -> Run {
    let conversation = repository.create_conversation(scope, None, CreateConversation::default()).expect("create");
    repository
        .append_message(
            scope,
            conversation.id,
            message("hello"),
            "accepted-key".to_owned(),
            "accepted-body".to_owned(),
            RuntimeCapability::available("test".to_owned(), Some("1".to_owned())),
        )
        .expect("append")
        .run
}

#[test]
fn conversations_are_isolated_by_tenant_and_project() {
    let mut repository = MemoryAgentRepository::new();
    let first = scope();
    let second = TenantScope::new(first.operator_id, first.tenant_id, Some(ProjectId(fresh())));
    repository.create_conversation(&first, None, CreateConversation::default()).expect("create");
    assert_eq!(repository.list_conversations(&second).len(), 0);
    let other_tenant = TenantScope::new(first.operator_id, TenantId(fresh()), first.project_id);
    assert!(repository.list_conversations(&other_tenant).is_empty());
    assert_eq!(repository.list_conversations(&first).len(), 1);
}

#[test]
fn message_submission_is_idempotent_and_rejects_hash_conflicts() {
    let mut repository = MemoryAgentRepository::new();
    let scope = scope();
    let conversation = repository.create_conversation(&scope, None, CreateConversation::default()).expect("create");
    let capability = || RuntimeCapability::missing("test".to_owned());
    let first = repository
        .append_message(&scope, conversation.id, message("hello"), "same-key".to_owned(), "body-a".to_owned(), capability())
        .expect("append");
    let replay = repository
        .append_message(&scope, conversation.id, message("hello"), "same-key".to_owned(), "body-a".to_owned(), capability())
        .expect("replay");
    assert_eq!(first.run.id, replay.run.id);
    let conflict = repository
        .append_message(&scope, conversation.id, message("different"), "same-key".to_owned(), "body-b".to_owned(), capability())
        .expect_err("hash conflict");
    assert_eq!(conflict.code, ErrorCode::Conflict);
}

#[test]
fn an_unavailable_runtime_fails_the_run_at_once() {
    let mut repository = MemoryAgentRepository::new();
    let scope = scope();
    let conversation = repository.create_conversation(&scope, None, CreateConversation::default()).expect("create");
    let acceptance = repository
        .append_message(
            &scope,
            conversation.id,
            message("hello"),
            "runtime-key".to_owned(),
            "body".to_owned(),
            RuntimeCapability::missing("runtime missing".to_owned()),
        )
        .expect("append");
    assert_eq!(acceptance.run.status, RunStatus::Failed);
    assert_eq!(acceptance.run.error.as_ref().map(|e| e.code), Some(ErrorCode::CapabilityMissing));
}

#[test]
fn a_queued_run_is_claimed_exactly_once() {
    let mut repository = MemoryAgentRepository::new();
    let scope = scope();
    let run = accepted_run(&mut repository, &scope);
    assert_eq!(run.status, RunStatus::Queued);
    let claimed = repository.begin_run(&scope, run.id).expect("begin").expect("claimable");
    assert_eq!(claimed.status, RunStatus::Running);
    assert!(repository.begin_run(&scope, run.id).expect("begin").is_none());
    let second = accepted_run(&mut repository, &scope);
    repository.cancel_turn(&scope, second.turn_id).expect("cancel");
    assert!(repository.begin_run(&scope, second.id).expect("begin").is_none());
}

#[test]
fn a_run_is_not_claimable_outside_its_scope() {
    let mut repository = MemoryAgentRepository::new();
    let scope = scope();
    let run = accepted_run(&mut repository, &scope);
    let other = TenantScope::new(scope.operator_id, scope.tenant_id, Some(ProjectId(fresh())));
    assert!(repository.begin_run(&other, run.id).expect("begin").is_none());
    assert!(repository
        .finish_run(&other, run.id, RunCompletion::Succeeded { content: "answer".to_owned(), metadata: "null".to_owned() })
        .expect("finish")
        .is_none());
}

#[test]
fn cancellation_outranks_a_late_completion() {
    let mut repository = MemoryAgentRepository::new();
    let scope = scope();
    let run = accepted_run(&mut repository, &scope);
    repository.begin_run(&scope, run.id).expect("begin").expect("claim");
    repository.cancel_turn(&scope, run.turn_id).expect("cancel");
    assert!(repository
        .finish_run(&scope, run.id, RunCompletion::Succeeded { content: "too late".to_owned(), metadata: "null".to_owned() })
        .expect("finish")
        .is_none());
    let detail = repository.get_conversation(&scope, run.conversation_id).expect("the conversation exists");
    assert_eq!(detail.runs[0].status, RunStatus::Cancelled);
    assert_eq!(detail.turns[0].status, TurnStatus::Cancelled);
    assert_eq!(detail.messages.len(), 1);
}

#[test]
fn finishing_a_run_records_the_answer_once() {
    let mut repository = MemoryAgentRepository::new();
    let scope = scope();
    let run = accepted_run(&mut repository, &scope);
    repository.begin_run(&scope, run.id).expect("begin").expect("claim");
    let finished = repository
        .finish_run(&scope, run.id, RunCompletion::Succeeded { content: "two years".to_owned(), metadata: "null".to_owned() })
        .expect("finish")
        .expect("transition");
    assert_eq!(finished.run.status, RunStatus::Succeeded);
    assert!(finished.message.is_some());
    assert!(repository
        .finish_run(&scope, run.id, RunCompletion::Succeeded { content: "again".to_owned(), metadata: "null".to_owned() })
        .expect("finish")
        .is_none());
    let detail = repository.get_conversation(&scope, run.conversation_id).expect("exists");
    assert_eq!(detail.messages.len(), 2);
}

#[test]
fn an_event_stream_replays_after_its_cursor_and_filters_the_live_tail() {
    let mut repository = MemoryAgentRepository::new();
    let scope = scope();
    assert!(repository.has_room());
    let run = accepted_run(&mut repository, &scope);
    let replay = repository.replay_events(&scope, run.conversation_id, Some(0)).expect("replay");
    assert!(replay.len() >= 2);
    let last = replayed_through(&replay, 0);
    assert_eq!(last, replay[replay.len() - 1].sequence);
    assert_eq!(replayed_through(&Vec::new(), 7), 7);
    let first = &replay[0];
    assert!(passes_live(first, run.conversation_id, &scope, 0));
    assert!(!passes_live(first, run.conversation_id, &scope, last));
    let elsewhere = TenantScope::new(scope.operator_id, TenantId(fresh()), None);
    assert!(!passes_live(first, run.conversation_id, &elsewhere, 0));
    assert!(!passes_live(first, geo_core::ids::ConversationId(fresh()), &scope, 0));

    assert_eq!(events_cursor(Some(4), &HeaderField::Text("9".to_owned())), 4);
    assert_eq!(events_cursor(None, &HeaderField::Text("9".to_owned())), 9);
    assert_eq!(events_cursor(None, &HeaderField::Text("nine".to_owned())), 0);
    assert_eq!(events_cursor(None, &HeaderField::Missing), 0);
}

#[test]
fn agent_requests_narrow_their_scope_and_hash_their_keys() {
    let base = TenantScope::new(OperatorId(1), TenantId(2), None);
    let project = "55555555-5555-4555-8555-555555555555";
    let expected = Some(ProjectId(0x55555555_5555_4555_8555_555555555555));
    let from_header = narrowed_scope(&base, &HeaderField::Text(project.to_owned()), Some("project_id=x")).unwrap();
    assert_eq!(from_header.project_id, expected);
    let query = format!("a=1&project_id=bad&project_id={project}");
    let from_query = narrowed_scope(&base, &HeaderField::Missing, Some(query.as_str())).unwrap();
    assert_eq!(from_query.project_id, expected);
    assert_eq!(narrowed_scope(&base, &HeaderField::Missing, Some("a=1")).unwrap(), base);
    let refused = narrowed_scope(&base, &HeaderField::Text("x".to_owned()), None).unwrap_err();
    assert_eq!(refused.message, "invalid x-project-id header");

    let hashed = idempotency_key_hash(&HeaderField::Text("  abc ".to_owned())).unwrap();
    assert_eq!(hashed, "ba7816bf8f01cfea414140de5dae2223b00361a396177a9cb410ff61f20015ad");
    assert_eq!(
        idempotency_key_hash(&HeaderField::Missing).unwrap_err().message,
        "missing Idempotency-Key header"
    );
    assert_eq!(idempotency_key_hash(&HeaderField::Unreadable).unwrap_err().code, ErrorCode::InvalidRequest);
}

#[test]
fn unavailable_runtime_fails_run_and_replays_failure_event() {
    let mut repository = MemoryAgentRepository::new();
    let scope = scope();
    let conversation = repository.create_conversation(&scope, None, CreateConversation::default()).expect("create");
    let acceptance = repository
        .append_message(
            &scope,
            conversation.id,
            message("hello"),
            "runtime-key".to_owned(),
            "body".to_owned(),
            RuntimeCapability::missing("runtime missing".to_owned()),
        )
        .expect("append");
    assert_eq!(acceptance.run.status, RunStatus::Failed);
    assert_eq!(acceptance.run.error.as_ref().map(|error| error.code), Some(ErrorCode::CapabilityMissing));
    let events = repository.replay_events(&scope, conversation.id, Some(0)).expect("events");
    assert!(events.iter().any(|event| event.event_type == "run.failed"));
    assert!(events.windows(2).all(|window| window[0].sequence < window[1].sequence));
}

#[test]
fn checkpoints_are_restorable_and_reject_a_changed_input() {
    let mut repository = MemoryAgentRepository::new();
    let scope = scope();
    let run = accepted_run(&mut repository, &scope);
    let checkpoint = |input_hash: &str, cursor: i64| StoreCheckpoint {
        checkpoint_scope: "loop".to_owned(),
        step_key: "collect".to_owned(),
        input_hash: input_hash.to_owned(),
        result_ref: None,
        state: format!("{{\"cursor\":{cursor}}}"),
    };
    let stored = repository.store_checkpoint(&scope, run.id, checkpoint("digest-a", 3)).expect("store");
    assert_eq!(stored.version, 1);
    let loaded = repository.load_checkpoint(&scope, run.id, "loop", "collect").expect("load").expect("present");
    assert_eq!(loaded.id, stored.id);
    assert_eq!(loaded.version, stored.version);
    assert_eq!(loaded.input_hash, stored.input_hash);
    assert_eq!(loaded.state, stored.state);
    let refreshed = repository.store_checkpoint(&scope, run.id, checkpoint("digest-a", 4)).expect("refresh");
    assert_eq!(refreshed.version, 2);
    assert_eq!(refreshed.id, stored.id);
    assert_eq!(refreshed.state, "{\"cursor\":4}");
    let conflict = repository.store_checkpoint(&scope, run.id, checkpoint("digest-b", 5)).expect_err("changed input");
    assert_eq!(conflict.code, ErrorCode::Conflict);
    let other_project = TenantScope::new(scope.operator_id, scope.tenant_id, Some(ProjectId(fresh())));
    let cross_project =
        repository.load_checkpoint(&other_project, run.id, "loop", "collect").expect_err("cross-project checkpoint");
    assert_eq!(cross_project.code, ErrorCode::NotFound);
}

#[test]
fn tool_call_ledger_is_idempotent_per_tool_call_id() {
    let mut repository = MemoryAgentRepository::new();
    let scope = scope();
    let run = accepted_run(&mut repository, &scope);
    let record = |tool_call_id: &str, arguments_hash: &str| RecordToolCall {
        run_id: run.id,
        tool_call_id: tool_call_id.to_owned(),
        tool_name: "geo.publish".to_owned(),
        arguments_hash: arguments_hash.to_owned(),
        idempotency_key_hash: "ledger-key".to_owned(),
        permission: ToolCallDecision::Allowed,
        budget: ToolCallDecision::Allowed,
        intent: "{\"document_id\":\"doc-1\"}".to_owned(),
        attempt_count: 0,
        result_ref: None,
        outcome: ToolCallOutcome::Intent,
        cost_minor: Some(12),
        currency: Some("CNY".to_owned()),
    };
    let appended = repository.append_tool_call(&scope, record("call-1", "args-a")).expect("append");
    assert_eq!(appended.turn_id, run.turn_id);
    let replayed = repository.append_tool_call(&scope, record("call-1", "args-a")).expect("replay");
    assert_eq!(replayed.id, appended.id);
    assert_eq!(replayed.arguments_hash, appended.arguments_hash);
    assert_eq!(replayed.created_at, appended.created_at);
    let conflict = repository.append_tool_call(&scope, record("call-1", "args-b")).expect_err("different arguments");
    assert_eq!(conflict.code, ErrorCode::Conflict);
    let listed = repository.list_tool_calls(&scope, run.id).expect("list");
    assert_eq!(listed.len(), 1);
    assert_eq!(listed[0].outcome, ToolCallOutcome::Intent);
}

#[test]
fn available_runtime_can_be_cancelled_and_replayed() {
    let mut repository = MemoryAgentRepository::new();
    let scope = scope();
    let conversation = repository.create_conversation(&scope, None, CreateConversation::default()).expect("create");
    let acceptance = repository
        .append_message(
            &scope,
            conversation.id,
            message("hello"),
            "cancel-key".to_owned(),
            "body".to_owned(),
            RuntimeCapability::available("test".to_owned(), Some("1".to_owned())),
        )
        .expect("append");
    let run = repository.cancel_turn(&scope, acceptance.turn.id).expect("cancel");
    assert_eq!(run.status, RunStatus::Cancelled);
    let events = repository.replay_events(&scope, conversation.id, Some(2)).expect("events");
    assert!(events.iter().any(|event| event.event_type == "run.cancelled"));
}

#[test]
fn a_failed_run_records_no_answer() {
    let mut repository = MemoryAgentRepository::new();
    let scope = scope();
    let run = accepted_run(&mut repository, &scope);
    repository.begin_run(&scope, run.id).expect("begin").expect("claim");
    let transition = repository
        .finish_run(&scope, run.id, RunCompletion::Failed { error: AppError::capability_missing("no model provider") })
        .expect("finish")
        .expect("a running run is finishable");
    assert_eq!(transition.run.status, RunStatus::Failed);
    assert_eq!(transition.run.error.as_ref().map(|error| error.code), Some(ErrorCode::CapabilityMissing));
    assert_eq!(transition.turn.status, TurnStatus::Failed);
    assert!(transition.message.is_none());
    let detail = repository.get_conversation(&scope, run.conversation_id).expect("the conversation exists");
    assert_eq!(detail.messages.len(), 1, "a failed turn must not leave an assistant message behind");
}

#[test]
fn an_unstorable_answer_fails_the_run_without_storing_it() {
    let mut repository = MemoryAgentRepository::new();
    let scope = scope();
    for content in ["   ".to_owned(), "x".repeat(MAX_MESSAGE_CHARS + 1)] {
        let run = accepted_run(&mut repository, &scope);
        repository.begin_run(&scope, run.id).expect("begin").expect("claim");
        let transition = repository
            .finish_run(&scope, run.id, RunCompletion::Succeeded { content, metadata: "null".to_owned() })
            .expect("finish")
            .expect("a running run is finishable");
        assert_eq!(transition.run.status, RunStatus::Failed);
        assert_eq!(transition.run.error.as_ref().map(|error| error.code), Some(ErrorCode::InvalidRequest));
        assert!(transition.message.is_none());
        let detail = repository.get_conversation(&scope, run.conversation_id).expect("the conversation exists");
        assert_eq!(detail.messages.len(), 1);
    }
}

#[test]
fn unimplemented_host_ops_report_capability_missing_rather_than_a_result() {
    let knowledge = MemoryKnowledgeRepository::new();
    let ops = RepositoryHostOps::new(&knowledge);
    let run_scope = scope();
    let failures = [
        (ops.model_complete(&run_scope).unwrap_err(), HostOp::ModelComplete),
        (ops.manifest_read(&run_scope).unwrap_err(), HostOp::ManifestRead),
        (ops.publish_submit(&run_scope).unwrap_err(), HostOp::Publish),
        (ops.measure_sample(&run_scope).unwrap_err(), HostOp::Measure),
    ];
    for (error, op) in failures {
        assert_eq!(error.op, op);
        assert_eq!(error.code, HostOpErrorCode::CapabilityMissing, "{error:?}");
        assert!(!error.message.is_empty());
    }
}

#[test]
fn knowledge_search_delegates_to_the_repository_and_types_its_failures() {
    let knowledge = MemoryKnowledgeRepository::new();
    let ops = RepositoryHostOps::new(&knowledge);
    let request = |query: &str| KnowledgeSearchRequest {
        query: query.to_owned(),
        purpose: KnowledgePurpose::Public,
        limit: 5,
        knowledge_release_id: None,
    };
    let found = ops.knowledge_search(&scope(), request("warranty")).expect("an empty project searches");
    assert!(found.evidence.is_empty());
    let unscoped = TenantScope::new(OperatorId(fresh()), TenantId(fresh()), None);
    let refused = ops.knowledge_search(&unscoped, request("warranty")).unwrap_err();
    assert_eq!(refused.op, HostOp::KnowledgeSearch);
    assert_eq!(refused.code, HostOpErrorCode::InvalidRequest);
}
