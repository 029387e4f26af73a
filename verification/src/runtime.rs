//! What the run executor and the host-op bridge decide: which accepted runs
//! are worth scheduling, what a finished turn records, and how failures cross
//! between the domain's error classes and the host-op vocabulary.

use vstd::prelude::*;
use vstd::string::StringExecFns;
use crate::agent::{RunCompletion, RunStatus, SubmitAcceptance, TurnInput, TurnReport};
use crate::error::{err, AppError, ErrorCode, ErrorV};
use crate::digest::hex_digit;
use crate::ids::{uuid_text, uuid_to_string, TenantScope};
use crate::knowledge::{KnowledgeSearchRequest, KnowledgeSearchResult};
use crate::knowledge_store::{search_outcome, search_view, MemoryKnowledgeRepository};
use crate::text::{first_pos, str_eq};

verus! {

/// The turn to schedule for an accepted message: only a run still queued is
/// worth scheduling; one made terminal at acceptance is not.
pub fn turn_to_dispatch(acceptance: &SubmitAcceptance) -> (r: Option<TurnInput>)
    ensures
        match r {
            Some(input) => acceptance.run.status == RunStatus::Queued && input.conversation_id == acceptance.conversation.id
                && input.turn_id == acceptance.turn.id && input.run_id == acceptance.run.id && input.prompt@
                == acceptance.message.content@,
            None => acceptance.run.status != RunStatus::Queued,
        },
{
    if acceptance.run.status != RunStatus::Queued {
        return None;
    }
    Some(
        TurnInput {
            conversation_id: acceptance.conversation.id,
            turn_id: acceptance.turn.id,
            run_id: acceptance.run.id,
            prompt: acceptance.message.content.clone(),
        },
    )
}

/// What a turn's outcome records: its answer, or its error.
pub fn completion_of(outcome: Result<TurnReport, AppError>) -> (c: RunCompletion)
    ensures
        match outcome {
            Ok(report) => c matches RunCompletion::Succeeded { content, metadata } && content@ == report.content@
                && metadata@ == report.metadata@,
            Err(error) => c matches RunCompletion::Failed { error: e } && e == error,
        },
{
    match outcome {
        Ok(report) => RunCompletion::Succeeded { content: report.content, metadata: report.metadata },
        Err(error) => RunCompletion::Failed { error },
    }
}

/// The operations a script may call on its host.
#[derive(Debug, Clone, Copy, PartialEq, Eq, Structural)]
pub enum HostOp {
    ModelComplete,
    KnowledgeSearch,
    ManifestRead,
    Publish,
    Measure,
}

/// The failure classes a host op declares.
#[derive(Debug, Clone, Copy, PartialEq, Eq, Structural)]
pub enum HostOpErrorCode {
    CapabilityMissing,
    Denied,
    NotFound,
    InvalidRequest,
    BudgetExceeded,
    DeadlineExceeded,
    UnknownResult,
    Cancelled,
    Failed,
    Internal,
}

/// The name a failure class carries on the wire.
pub open spec fn host_code_name(code: HostOpErrorCode) -> Seq<char> {
    match code {
        HostOpErrorCode::CapabilityMissing => "capability_missing"@,
        HostOpErrorCode::Denied => "denied"@,
        HostOpErrorCode::NotFound => "not_found"@,
        HostOpErrorCode::InvalidRequest => "invalid_request"@,
        HostOpErrorCode::BudgetExceeded => "budget_exceeded"@,
        HostOpErrorCode::DeadlineExceeded => "deadline_exceeded"@,
        HostOpErrorCode::UnknownResult => "unknown_result"@,
        HostOpErrorCode::Cancelled => "cancelled"@,
        HostOpErrorCode::Failed => "failed"@,
        HostOpErrorCode::Internal => "internal"@,
    }
}

/// A failure reported to a script.
#[derive(Debug)]
pub struct HostOpError {
    pub op: HostOp,
    pub code: HostOpErrorCode,
    pub message: String,
}

/// The host-op class a domain failure arrives as: capability gaps, missing
/// resources and invalid requests keep their class, refusals of either kind
/// are denials, and everything else is a plain failure.
pub open spec fn host_class(code: ErrorCode) -> HostOpErrorCode {
    match code {
        ErrorCode::CapabilityMissing => HostOpErrorCode::CapabilityMissing,
        ErrorCode::NotFound => HostOpErrorCode::NotFound,
        ErrorCode::InvalidRequest => HostOpErrorCode::InvalidRequest,
        ErrorCode::Forbidden => HostOpErrorCode::Denied,
        ErrorCode::Unauthorized => HostOpErrorCode::Denied,
        _ => HostOpErrorCode::Failed,
    }
}

/// Maps a domain failure onto the host-op vocabulary.
pub fn worker_error(op: HostOp, error: AppError) -> (e: HostOpError)
    ensures
        e.op == op,
        e.code == host_class(error.code),
        e.message@ == error.message@,
{
    let code = match error.code {
        ErrorCode::CapabilityMissing => HostOpErrorCode::CapabilityMissing,
        ErrorCode::NotFound => HostOpErrorCode::NotFound,
        ErrorCode::InvalidRequest => HostOpErrorCode::InvalidRequest,
        ErrorCode::Forbidden | ErrorCode::Unauthorized => HostOpErrorCode::Denied,
        _ => HostOpErrorCode::Failed,
    };
    HostOpError { op, code, message: error.message }
}

/// The application class of a declared host-op failure.
pub open spec fn app_class(code: HostOpErrorCode) -> ErrorCode {
    match code {
        HostOpErrorCode::CapabilityMissing => ErrorCode::CapabilityMissing,
        HostOpErrorCode::Denied => ErrorCode::Forbidden,
        HostOpErrorCode::NotFound => ErrorCode::NotFound,
        HostOpErrorCode::InvalidRequest => ErrorCode::InvalidRequest,
        HostOpErrorCode::BudgetExceeded => ErrorCode::DependencyUnavailable,
        HostOpErrorCode::DeadlineExceeded => ErrorCode::DependencyUnavailable,
        HostOpErrorCode::UnknownResult => ErrorCode::DependencyUnavailable,
        HostOpErrorCode::Cancelled => ErrorCode::Conflict,
        HostOpErrorCode::Failed => ErrorCode::Internal,
        HostOpErrorCode::Internal => ErrorCode::Internal,
    }
}

pub fn error_code_for_host_op(code: HostOpErrorCode) -> (c: ErrorCode)
    ensures
        c == app_class(code),
{
    match code {
        HostOpErrorCode::CapabilityMissing => ErrorCode::CapabilityMissing,
        HostOpErrorCode::Denied => ErrorCode::Forbidden,
        HostOpErrorCode::NotFound => ErrorCode::NotFound,
        HostOpErrorCode::InvalidRequest => ErrorCode::InvalidRequest,
        HostOpErrorCode::BudgetExceeded | HostOpErrorCode::DeadlineExceeded | HostOpErrorCode::UnknownResult => {
            ErrorCode::DependencyUnavailable
        },
        HostOpErrorCode::Cancelled => ErrorCode::Conflict,
        HostOpErrorCode::Failed | HostOpErrorCode::Internal => ErrorCode::Internal,
    }
}

/// Every failure class is read back from the name it carries on the wire.
pub proof fn lemma_class_names_round_trip(code: HostOpErrorCode)
    ensures
        class_named(host_code_name(code)) == Some(code),
{
    reveal_strlit("capability_missing");
    reveal_strlit("denied");
    reveal_strlit("not_found");
    reveal_strlit("invalid_request");
    reveal_strlit("budget_exceeded");
    reveal_strlit("deadline_exceeded");
    reveal_strlit("unknown_result");
    reveal_strlit("cancelled");
    reveal_strlit("failed");
    reveal_strlit("internal");
    match code {
        HostOpErrorCode::CapabilityMissing => {
        },
        HostOpErrorCode::Denied => {
            assert("denied"@.len() != "capability_missing"@.len());
        },
        HostOpErrorCode::NotFound => {
            assert("not_found"@.len() != "capability_missing"@.len());
            assert("not_found"@.len() != "denied"@.len());
        },
        HostOpErrorCode::InvalidRequest => {
            assert("invalid_request"@.len() != "capability_missing"@.len());
            assert("invalid_request"@.len() != "denied"@.len());
            assert("invalid_request"@.len() != "not_found"@.len());
        },
        HostOpErrorCode::BudgetExceeded => {
            assert("budget_exceeded"@.len() != "capability_missing"@.len());
            assert("budget_exceeded"@.len() != "denied"@.len());
            assert("budget_exceeded"@.len() != "not_found"@.len());
            assert("budget_exceeded"@[0] != "invalid_request"@[0]);
        },
        HostOpErrorCode::DeadlineExceeded => {
            assert("deadline_exceeded"@.len() != "capability_missing"@.len());
            assert("deadline_exceeded"@.len() != "denied"@.len());
            assert("deadline_exceeded"@.len() != "not_found"@.len());
            assert("deadline_exceeded"@.len() != "invalid_request"@.len());
            assert("deadline_exceeded"@.len() != "budget_exceeded"@.len());
        },
        HostOpErrorCode::UnknownResult => {
            assert("unknown_result"@.len() != "capability_missing"@.len());
            assert("unknown_result"@.len() != "denied"@.len());
            assert("unknown_result"@.len() != "not_found"@.len());
            assert("unknown_result"@.len() != "invalid_request"@.len());
            assert("unknown_result"@.len() != "budget_exceeded"@.len());
            assert("unknown_result"@.len() != "deadline_exceeded"@.len());
        },
        HostOpErrorCode::Cancelled => {
            assert("cancelled"@.len() != "capability_missing"@.len());
            assert("cancelled"@.len() != "denied"@.len());
            assert("cancelled"@[0] != "not_found"@[0]);
            assert("cancelled"@.len() != "invalid_request"@.len());
            assert("cancelled"@.len() != "budget_exceeded"@.len());
            assert("cancelled"@.len() != "deadline_exceeded"@.len());
            assert("cancelled"@.len() != "unknown_result"@.len());
        },
        HostOpErrorCode::Failed => {
            assert("failed"@.len() != "capability_missing"@.len());
            assert("failed"@[0] != "denied"@[0]);
            assert("failed"@.len() != "not_found"@.len());
            assert("failed"@.len() != "invalid_request"@.len());
            assert("failed"@.len() != "budget_exceeded"@.len());
            assert("failed"@.len() != "deadline_exceeded"@.len());
            assert("failed"@.len() != "unknown_result"@.len());
            assert("failed"@.len() != "cancelled"@.len());
        },
        HostOpErrorCode::Internal => {
            assert("internal"@.len() != "capability_missing"@.len());
            assert("internal"@.len() != "denied"@.len());
            assert("internal"@.len() != "not_found"@.len());
            assert("internal"@.len() != "invalid_request"@.len());
            assert("internal"@.len() != "budget_exceeded"@.len());
            assert("internal"@.len() != "deadline_exceeded"@.len());
            assert("internal"@.len() != "unknown_result"@.len());
            assert("internal"@.len() != "cancelled"@.len());
            assert("internal"@.len() != "failed"@.len());
        },
    }
}

/// A domain failure sent to a script and thrown back keeps its class where
/// the vocabulary has one: capability gaps, missing resources and invalid
/// requests survive the round trip.
pub proof fn lemma_round_trip_keeps_class(code: ErrorCode)
    requires
        code == ErrorCode::CapabilityMissing || code == ErrorCode::NotFound || code == ErrorCode::InvalidRequest
            || code == ErrorCode::Forbidden,
    ensures
        app_class(host_class(code)) == code,
{
}

/// The message `serde_json` gives when `text` is not one JSON value; `None`
/// when it is.
pub uninterp spec fn json_parse_error(text: Seq<char>) -> Option<Seq<char>>;

/// The member `name` of the JSON value `text`, when the value is an object
/// and that member is a string.
pub uninterp spec fn json_string_member(text: Seq<char>, name: Seq<char>) -> Option<Seq<char>>;

/// The JSON value `text` written back in `serde_json`'s compact form.
pub uninterp spec fn json_compact(text: Seq<char>) -> Seq<char>;

/// `serde_json::from_str::<serde_json::Value>` on `text`; of the value, the
/// member `member` read as a string (`Value::get`, `Value::as_str`) and the
/// value written back (`Value::to_string`).  A text that does not parse gives
/// the parser's message.
#[verifier::external_body]
fn read_json(text: &str, member: &str) -> (r: Result<(Option<String>, String), String>)
    ensures
        match r {
            Ok((found, compact)) => json_parse_error(text@) is None && compact@ == json_compact(text@) && match found {
                Some(v) => json_string_member(text@, member@) == Some(v@),
                None => json_string_member(text@, member@) is None,
            },
            Err(message) => json_parse_error(text@) == Some(message@),
        },
{
    let value: serde_json::Value = serde_json::from_str(text).map_err(|error| error.to_string())?;
    let found = value.get(member).and_then(serde_json::Value::as_str).map(str::to_owned);
    Ok((found, value.to_string()))
}

/// How `serde_json` writes one character inside a string: the quote and
/// the backslash behind a backslash, backspace, form feed, line feed,
/// carriage return and tab by their short escapes, the other control
/// characters below U+0020 as `\u00` and two lower-case hexadecimal digits,
/// and everything else as it is.
pub open spec fn json_char_escape(c: char) -> Seq<char> {
    if c == '"' {
        seq!['\\', '"']
    } else if c == '\\' {
        seq!['\\', '\\']
    } else if c == '\u{8}' {
        seq!['\\', 'b']
    } else if c == '\u{c}' {
        seq!['\\', 'f']
    } else if c == '\n' {
        seq!['\\', 'n']
    } else if c == '\r' {
        seq!['\\', 'r']
    } else if c == '\t' {
        seq!['\\', 't']
    } else if (c as u32) < 0x20 {
        seq!['\\', 'u', '0', '0', hex_digit(((c as u32) / 16) as u8), hex_digit(((c as u32) % 16) as u8)]
    } else {
        seq![c]
    }
}

/// Every character of `text` written as `json_char_escape` writes it.
pub open spec fn json_escaped(text: Seq<char>) -> Seq<char>
    decreases text.len(),
{
    if text.len() == 0 {
        Seq::empty()
    } else {
        json_escaped(text.drop_last()) + json_char_escape(text.last())
    }
}

/// The JSON string literal `serde_json` writes for `text`: quoted, with the
/// characters JSON requires escaped.
pub open spec fn json_string_literal(text: Seq<char>) -> Seq<char> {
    seq!['"'] + json_escaped(text) + seq!['"']
}

/// `serde_json::Value::String(text)` written with its `Display`.
#[verifier::external_body]
fn json_quote(text: &str) -> (quoted: String)
    ensures
        quoted@ == json_string_literal(text@),
{
    serde_json::Value::String(text.to_owned()).to_string()
}

/// The single argument a turn is called with: its prompt (also as the
/// retrieval query) and its run, turn and conversation ids.
pub open spec fn turn_argument_text(input: TurnInput) -> Seq<char> {
    "{\"conversation_id\":\""@ + uuid_text(input.conversation_id.0) + "\",\"prompt\":"@ + json_string_literal(
        input.prompt@,
    ) + ",\"query\":"@ + json_string_literal(input.prompt@) + ",\"run_id\":\""@ + uuid_text(input.run_id.0)
        + "\",\"turn_id\":\""@ + uuid_text(input.turn_id.0) + "\"}"@
}

pub fn turn_argument(input: &TurnInput) -> (text: String)
    ensures
        text@ == turn_argument_text(*input),
{
    let prompt = json_quote(input.prompt.as_str());
    let conversation = uuid_to_string(input.conversation_id.0);
    let run = uuid_to_string(input.run_id.0);
    let turn = uuid_to_string(input.turn_id.0);
    String::from_str("{\"conversation_id\":\"").concat(conversation.as_str()).concat("\",\"prompt\":").concat(
        prompt.as_str(),
    ).concat(",\"query\":").concat(prompt.as_str()).concat(",\"run_id\":\"").concat(run.as_str()).concat(
        "\",\"turn_id\":\"",
    ).concat(turn.as_str()).concat("\"}")
}

/// The string `code` of a JSON object text, when the text parses.
pub open spec fn json_code_member(text: Seq<char>) -> Option<Seq<char>> {
    if json_parse_error(text) is None {
        json_string_member(text, "code"@)
    } else {
        None
    }
}

fn json_code(text: &str) -> (code: Option<String>)
    ensures
        match code {
            Some(c) => json_code_member(text@) == Some(c@),
            None => json_code_member(text@) is None,
        },
{
    match read_json(text, "code") {
        Ok((found, _)) => found,
        Err(_) => None,
    }
}

/// The position of the last `c` in `s`.
pub open spec fn last_pos(s: Seq<char>, c: char) -> Option<nat>
    decreases s.len(),
{
    if s.len() == 0 {
        None
    } else if s.last() == c {
        Some((s.len() - 1) as nat)
    } else {
        last_pos(s.drop_last(), c)
    }
}

/// The class named `name`, if the vocabulary has one.
pub open spec fn class_named(name: Seq<char>) -> Option<HostOpErrorCode> {
    if name == "capability_missing"@ {
        Some(HostOpErrorCode::CapabilityMissing)
    } else if name == "denied"@ {
        Some(HostOpErrorCode::Denied)
    } else if name == "not_found"@ {
        Some(HostOpErrorCode::NotFound)
    } else if name == "invalid_request"@ {
        Some(HostOpErrorCode::InvalidRequest)
    } else if name == "budget_exceeded"@ {
        Some(HostOpErrorCode::BudgetExceeded)
    } else if name == "deadline_exceeded"@ {
        Some(HostOpErrorCode::DeadlineExceeded)
    } else if name == "unknown_result"@ {
        Some(HostOpErrorCode::UnknownResult)
    } else if name == "cancelled"@ {
        Some(HostOpErrorCode::Cancelled)
    } else if name == "failed"@ {
        Some(HostOpErrorCode::Failed)
    } else if name == "internal"@ {
        Some(HostOpErrorCode::Internal)
    } else {
        None
    }
}

fn class_of(name: &str) -> (r: Option<HostOpErrorCode>)
    ensures
        r == class_named(name@),
{
    if str_eq(name, "capability_missing") {
        Some(HostOpErrorCode::CapabilityMissing)
    } else if str_eq(name, "denied") {
        Some(HostOpErrorCode::Denied)
    } else if str_eq(name, "not_found") {
        Some(HostOpErrorCode::NotFound)
    } else if str_eq(name, "invalid_request") {
        Some(HostOpErrorCode::InvalidRequest)
    } else if str_eq(name, "budget_exceeded") {
        Some(HostOpErrorCode::BudgetExceeded)
    } else if str_eq(name, "deadline_exceeded") {
        Some(HostOpErrorCode::DeadlineExceeded)
    } else if str_eq(name, "unknown_result") {
        Some(HostOpErrorCode::UnknownResult)
    } else if str_eq(name, "cancelled") {
        Some(HostOpErrorCode::Cancelled)
    } else if str_eq(name, "failed") {
        Some(HostOpErrorCode::Failed)
    } else if str_eq(name, "internal") {
        Some(HostOpErrorCode::Internal)
    } else {
        None
    }
}

/// The declared class inside a thrown message: the JSON object from its
/// first `{` to its last `}`, and that object's `code`.
pub open spec fn reported_class(message: Seq<char>) -> Option<HostOpErrorCode> {
    match (first_pos(message, '{'), last_pos(message, '}')) {
        (Some(start), Some(end)) => if start <= end {
            match json_code_member(message.subrange(start as int, end + 1int)) {
                Some(name) => class_named(name),
                None => None,
            }
        } else {
            None
        },
        _ => None,
    }
}

fn find_first(s: &str, c: char) -> (r: Option<usize>)
    ensures
        match r {
            Some(i) => first_pos(s@, c) == Some(i as nat),
            None => first_pos(s@, c) is None,
        },
{
    let n = s.unicode_len();
    let mut i: usize = 0;
    assert(s@.skip(0) =~= s@);
    while i < n
        invariant
            i <= n,
            n == s@.len(),
            forall|k: int| 0 <= k < i ==> s@[k] != c,
            first_pos(s@, c) == match first_pos(s@.skip(i as int), c) {
                Some(p) => Some((p + i) as nat),
                None => None,
            },
        decreases n - i,
    {
        let ch = s.get_char(i);
        proof {
            assert(s@.skip(i as int)[0] == ch);
            assert(s@.skip(i as int).drop_first() =~= s@.skip(i + 1));
        }
        if ch == c {
            return Some(i);
        }
        i += 1;
    }
    assert(s@.skip(n as int) =~= Seq::<char>::empty());
    None
}

fn find_last(s: &str, c: char) -> (r: Option<usize>)
    ensures
        match r {
            Some(i) => last_pos(s@, c) == Some(i as nat) && i < s@.len(),
            None => last_pos(s@, c) is None,
        },
{
    let n = s.unicode_len();
    let mut i: usize = n;
    assert(s@.take(n as int) =~= s@);
    while i > 0
        invariant
            i <= n,
            n == s@.len(),
            last_pos(s@, c) == last_pos(s@.take(i as int), c),
        decreases i,
    {
        let ch = s.get_char(i - 1);
        proof {
            assert(s@.take(i as int).last() == ch);
            assert(s@.take(i as int).drop_last() =~= s@.take(i - 1));
        }
        if ch == c {
            return Some(i - 1);
        }
        i -= 1;
    }
    assert(s@.take(0) =~= Seq::<char>::empty());
    None
}

/// The failure class a thrown message declares, if it declares one.
pub fn reported_host_op_code(message: &str) -> (r: Option<HostOpErrorCode>)
    ensures
        r == reported_class(message@),
{
    let start = match find_first(message, '{') {
        Some(i) => i,
        None => return None,
    };
    let end = match find_last(message, '}') {
        Some(i) => i,
        None => return None,
    };
    if start > end {
        return None;
    }
    let n = message.unicode_len();
    assert(end < n);
    let payload = message.substring_char(start, end + 1);
    match json_code(payload) {
        Some(name) => class_of(name.as_str()),
        None => None,
    }
}

/// A failure of the embedded worker: the stage it happened in and its text.
#[derive(Debug)]
pub struct WorkerError {
    pub stage: String,
    pub message: String,
}

impl WorkerError {
    pub fn new(stage: &str, message: &str) -> (e: Self)
        ensures
            e.stage@ == stage@ && e.message@ == message@,
    {
        WorkerError { stage: stage.to_owned(), message: message.to_owned() }
    }
}

/// The application class of a failed turn: a failure of the call that carries
/// a declared host-op class keeps it; anything else is internal.
pub open spec fn turn_failure_class(stage: Seq<char>, message: Seq<char>) -> ErrorCode {
    if stage == "call"@ {
        match reported_class(message) {
            Some(code) => app_class(code),
            None => ErrorCode::Internal,
        }
    } else {
        ErrorCode::Internal
    }
}

/// The typed error of a failed turn, carrying the worker's message.
pub fn turn_failure(error: WorkerError) -> (e: AppError)
    ensures
        e@ == crate::error::err(turn_failure_class(error.stage@, error.message@), error.message@),
{
    proof {
        reveal_strlit("call");
    }
    let code = if str_eq(error.stage.as_str(), "call") {
        match reported_host_op_code(error.message.as_str()) {
            Some(c) => error_code_for_host_op(c),
            None => ErrorCode::Internal,
        }
    } else {
        ErrorCode::Internal
    };
    AppError::with_message(code, error.message)
}

/// The topic under which a turn reports its result.
pub const TURN_COMPLETION_TOPIC: &'static str = "loop.completed";

/// One event a turn's script published to its host.
#[derive(Debug)]
pub struct HostEvent {
    pub topic: String,
    pub payload: String,
}

/// The payload of the last event with `topic`.
pub open spec fn last_payload(events: Seq<HostEvent>, topic: Seq<char>) -> Option<Seq<char>>
    decreases events.len(),
{
    if events.len() == 0 {
        None
    } else if events.last().topic@ == topic {
        Some(events.last().payload@)
    } else {
        last_payload(events.drop_last(), topic)
    }
}

/// What a finished turn reports: the answer and the payload of its last
/// completion event, or why there is none.
pub open spec fn report_rule(events: Seq<HostEvent>) -> Result<(Seq<char>, Seq<char>), ErrorV> {
    match last_payload(events, TURN_COMPLETION_TOPIC@) {
        None => Err(err(
            ErrorCode::Internal,
            "the turn returned without reporting `loop.completed`, so it produced no answer"@,
        )),
        Some(payload) => match json_parse_error(payload) {
            Some(message) => Err(err(ErrorCode::Internal, "the turn's reported result is not readable: "@ + message)),
            None => match json_string_member(payload, "answer"@) {
                None => Err(err(ErrorCode::Internal, "the turn's reported result carries no answer"@)),
                Some(answer) => Ok((answer, json_compact(payload))),
            },
        },
    }
}

pub open spec fn report_view(r: Result<TurnReport, AppError>) -> Result<(Seq<char>, Seq<char>), ErrorV> {
    match r {
        Ok(report) => Ok((report.content@, report.metadata@)),
        Err(e) => Err(e@),
    }
}

/// The report of a turn whose script ran to its end.
pub fn turn_report(events: &Vec<HostEvent>) -> (r: Result<TurnReport, AppError>)
    ensures
        report_view(r) == report_rule(events@),
{
    let mut i: usize = events.len();
    assert(events@.take(i as int) =~= events@);
    while i > 0
        invariant
            i <= events.len(),
            last_payload(events@, TURN_COMPLETION_TOPIC@) == last_payload(events@.take(i as int), TURN_COMPLETION_TOPIC@),
        decreases i,
    {
        assert(events@.take(i as int).drop_last() =~= events@.take(i - 1));
        if str_eq(events[i - 1].topic.as_str(), TURN_COMPLETION_TOPIC) {
            let payload = events[i - 1].payload.as_str();
            return match read_json(payload, "answer") {
                Err(message) => Err(AppError::with_message(
                    ErrorCode::Internal,
                    String::from_str("the turn's reported result is not readable: ").concat(message.as_str()),
                )),
                Ok((None, _)) => Err(AppError::new(ErrorCode::Internal, "the turn's reported result carries no answer")),
                Ok((Some(answer), metadata)) => Ok(TurnReport { content: answer, metadata }),
            };
        }
        i -= 1;
    }
    assert(events@.take(0) =~= Seq::<HostEvent>::empty());
    Err(AppError::new(
        ErrorCode::Internal,
        "the turn returned without reporting `loop.completed`, so it produced no answer",
    ))
}

/// What a turn's worker outcome reports: a failed worker's typed error, or
/// the report of the events it left.
pub fn finish_turn(finished: Result<Vec<HostEvent>, WorkerError>) -> (r: Result<TurnReport, AppError>)
    ensures
        match finished {
            Err(w) => report_view(r) == Err::<(Seq<char>, Seq<char>), ErrorV>(
                err(turn_failure_class(w.stage@, w.message@), w.message@),
            ),
            Ok(events) => report_view(r) == report_rule(events@),
        },
{
    match finished {
        Err(w) => Err(turn_failure(w)),
        Ok(events) => turn_report(&events),
    }
}

/// The product capabilities behind the host ops, as this process provides
/// them: knowledge search over the knowledge store; model completion,
/// manifest reads, publishing and measurement are not built yet and say so
/// with a typed capability gap rather than an empty result.
pub struct RepositoryHostOps<'a> {
    pub knowledge: &'a MemoryKnowledgeRepository,
}

/// A host op this process cannot honour.
pub open spec fn op_missing(e: HostOpError, op: HostOp, message: Seq<char>) -> bool {
    e.op == op && e.code == HostOpErrorCode::CapabilityMissing && e.message@ == message
}

fn capability_missing(op: HostOp, message: &str) -> (e: HostOpError)
    ensures
        op_missing(e, op, message@),
{
    HostOpError { op, code: HostOpErrorCode::CapabilityMissing, message: message.to_owned() }
}

impl<'a> RepositoryHostOps<'a> {
    pub fn new(knowledge: &'a MemoryKnowledgeRepository) -> (ops: Self)
        ensures
            ops.knowledge == knowledge,
    {
        RepositoryHostOps { knowledge }
    }

    pub fn model_complete(&self, scope: &TenantScope) -> (r: Result<(), HostOpError>)
        ensures
            r matches Err(e) && op_missing(e, HostOp::ModelComplete, "no model provider bridge is configured"@),
    {
        Err(capability_missing(HostOp::ModelComplete, "no model provider bridge is configured"))
    }

    /// The knowledge store's search, its refusals in the host-op vocabulary.
    pub fn knowledge_search(&self, scope: &TenantScope, request: KnowledgeSearchRequest) -> (r: Result<
        KnowledgeSearchResult,
        HostOpError,
    >)
        requires
            self.knowledge@.wf(),
        ensures
            match r {
                Ok(found) => search_outcome(self.knowledge@, *scope, request, search_view(Ok::<KnowledgeSearchResult, AppError>(found))),
                Err(e) => e.op == HostOp::KnowledgeSearch && exists|a: AppError|
                    search_outcome(self.knowledge@, *scope, request, search_view(Err::<KnowledgeSearchResult, AppError>(a)))
                        && e.code == host_class(a.code) && e.message@ == a.message@,
            },
    {
        match self.knowledge.search(scope, request) {
            Ok(found) => Ok(found),
            Err(error) => {
                let ghost a = error;
                let e = worker_error(HostOp::KnowledgeSearch, error);
                assert(search_outcome(self.knowledge@, *scope, request, search_view(Err::<KnowledgeSearchResult, AppError>(a))));
                Err(e)
            },
        }
    }

    pub fn manifest_read(&self, scope: &TenantScope) -> (r: Result<(), HostOpError>)
        ensures
            r matches Err(e) && op_missing(e, HostOp::ManifestRead, "manifest item iteration is not implemented yet"@),
    {
        Err(capability_missing(HostOp::ManifestRead, "manifest item iteration is not implemented yet"))
    }

    pub fn publish_submit(&self, scope: &TenantScope) -> (r: Result<(), HostOpError>)
        ensures
            r matches Err(e) && op_missing(e, HostOp::Publish, "platform publishing is not implemented yet"@),
    {
        Err(capability_missing(HostOp::Publish, "platform publishing is not implemented yet"))
    }

    pub fn measure_sample(&self, scope: &TenantScope) -> (r: Result<(), HostOpError>)
        ensures
            r matches Err(e) && op_missing(e, HostOp::Measure, "independent channel measurement is not implemented yet"@),
    {
        Err(capability_missing(HostOp::Measure, "independent channel measurement is not implemented yet"))
    }
}

} // verus!
