use geo_core::runtime::{
    finish_turn, turn_argument, turn_failure, turn_report, worker_error, HostEvent, HostOp, HostOpErrorCode, WorkerError,
    TURN_COMPLETION_TOPIC,
};
use geo_core::agent::TurnInput;
use geo_core::ids::{ConversationId, RunId, TurnId};
use geo_core::{AppError, ErrorCode};

#[test]
fn domain_failures_map_onto_the_declared_host_op_codes() {
    let cases = [
        (AppError::capability_missing("no adapter"), HostOpErrorCode::CapabilityMissing),
        (AppError::not_found("no such source"), HostOpErrorCode::NotFound),
        (AppError::invalid_request("query must not be empty"), HostOpErrorCode::InvalidRequest),
        (AppError::forbidden("not a writer"), HostOpErrorCode::Denied),
        (AppError::unauthorized("no session"), HostOpErrorCode::Denied),
        (AppError::conflict("already sealed"), HostOpErrorCode::Failed),
        (AppError::not_ready("still importing"), HostOpErrorCode::Failed),
    ];
    for (error, expected) in cases {
        let mapped = worker_error(HostOp::KnowledgeSearch, error);
        assert_eq!(mapped.op, HostOp::KnowledgeSearch);
        assert_eq!(mapped.code, expected, "{mapped:?}");
    }
}

#[test]
fn a_thrown_host_op_failure_keeps_its_declared_class() {
    let thrown = WorkerError::new(
        "call",
        r#"Uncaught GeoHostOpError: {"code":"capability_missing","op":"model_complete","message":"no model provider bridge is configured"}"#,
    );
    let mapped = turn_failure(thrown);
    assert_eq!(mapped.code, ErrorCode::CapabilityMissing);

    let denied = WorkerError::new(
        "call",
        r#"Uncaught GeoHostOpError: {"code":"denied","op":"publish_submit","message":"not permitted"}"#,
    );
    assert_eq!(turn_failure(denied).code, ErrorCode::Forbidden);

    let unloadable = WorkerError::new("evaluate", "SyntaxError: unexpected token");
    assert_eq!(turn_failure(unloadable).code, ErrorCode::Internal);

    let opaque = WorkerError::new("call", "Uncaught Error: turn exploded");
    assert_eq!(turn_failure(opaque).code, ErrorCode::Internal);
}

#[test]
fn a_cancelled_op_is_a_conflict_and_an_unknown_result_a_dependency_failure() {
    let cancelled = WorkerError::new("call", r#"x {"code":"cancelled"} y"#);
    assert_eq!(turn_failure(cancelled).code, ErrorCode::Conflict);
    let unknown = WorkerError::new("call", r#"{"code":"unknown_result"}"#);
    assert_eq!(turn_failure(unknown).code, ErrorCode::DependencyUnavailable);
    let unnamed = WorkerError::new("call", r#"{"code":"exploded"}"#);
    assert_eq!(turn_failure(unnamed).code, ErrorCode::Internal);
}

fn event(topic: &str, payload: &str) -> HostEvent {
    HostEvent { topic: topic.to_owned(), payload: payload.to_owned() }
}

#[test]
fn the_last_completion_event_carries_the_answer() {
    let events = vec![
        event("loop.completed", r#"{"answer":"first"}"#),
        event("loop.progress", r#"{"step":1}"#),
        event("loop.completed", r#"{ "model": "recorder",  "answer": "bridge:how long is the warranty?" }"#),
    ];
    let report = turn_report(&events).expect("a report");
    assert_eq!(report.content, "bridge:how long is the warranty?");
    assert_eq!(report.metadata, r#"{"answer":"bridge:how long is the warranty?","model":"recorder"}"#);
}

#[test]
fn a_turn_without_a_readable_answer_is_an_internal_failure() {
    let silent = turn_report(&vec![event("loop.progress", "{}")]).unwrap_err();
    assert_eq!(silent.code, ErrorCode::Internal);
    assert_eq!(silent.message, "the turn returned without reporting `loop.completed`, so it produced no answer");

    let garbled = turn_report(&vec![event("loop.completed", "not json")]).unwrap_err();
    assert_eq!(garbled.code, ErrorCode::Internal);
    assert!(garbled.message.starts_with("the turn's reported result is not readable: "), "{}", garbled.message);

    let unanswered = turn_report(&vec![event("loop.completed", r#"{"answer":7}"#)]).unwrap_err();
    assert_eq!(unanswered.message, "the turn's reported result carries no answer");
}

#[test]
fn a_failed_worker_reports_its_own_class() {
    let failed = finish_turn(Err(WorkerError::new("call", r#"{"code":"not_found"}"#))).unwrap_err();
    assert_eq!(failed.code, ErrorCode::NotFound);
    let done = finish_turn(Ok(vec![event(TURN_COMPLETION_TOPIC, r#"{"answer":"ok"}"#)])).unwrap();
    assert_eq!(done.content, "ok");
}

fn turn_input() -> TurnInput {
    TurnInput {
        conversation_id: ConversationId(uuid::Uuid::new_v4().as_u128()),
        turn_id: TurnId(uuid::Uuid::new_v4().as_u128()),
        run_id: RunId(uuid::Uuid::new_v4().as_u128()),
        prompt: "how long is the warranty?".to_owned(),
    }
}

#[test]
fn the_turn_argument_names_everything_a_bundle_needs() {
    let input = turn_input();
    let argument: serde_json::Value = serde_json::from_str(&turn_argument(&input)).expect("valid JSON");
    assert_eq!(argument["prompt"], "how long is the warranty?");
    assert_eq!(argument["query"], "how long is the warranty?");
    assert_eq!(argument["run_id"], uuid::Uuid::from_u128(input.run_id.0).to_string().as_str());
    assert_eq!(argument["turn_id"], uuid::Uuid::from_u128(input.turn_id.0).to_string().as_str());
    assert_eq!(argument["conversation_id"], uuid::Uuid::from_u128(input.conversation_id.0).to_string().as_str());
}

#[test]
fn a_prompt_with_quotes_stays_one_json_string() {
    let mut input = turn_input();
    input.prompt = "say \"hi\"\nthen \\ stop".to_owned();
    let argument: serde_json::Value = serde_json::from_str(&turn_argument(&input)).expect("valid JSON");
    assert_eq!(argument["prompt"], "say \"hi\"\nthen \\ stop");
}

#[test]
fn a_prompt_is_escaped_the_way_json_writes_strings() {
    let mut input = turn_input();
    input.prompt = "a\"b\\c\u{8}\u{c}\n\r\t\u{1}\u{7f}é".to_owned();
    let text = turn_argument(&input);
    assert!(text.contains("\"prompt\":\"a\\\"b\\\\c\\b\\f\\n\\r\\t\\u0001\u{7f}é\""));
}
