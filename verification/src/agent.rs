//! Conversation and agent-run contracts: the records the API and the worker
//! exchange, and the validation every write goes through.  JSON documents the
//! store never reads (message metadata, checkpoint state, tool intents) are
//! carried as their serialized text.

use vstd::prelude::*;
use vstd::string::StringExecFns;
use crate::error::{AppError, ErrorCode, ErrorV, err};
use crate::ids::{
    AttachmentId, CheckpointId, ConversationEventId, ConversationId, MessageId, OperatorId, ProjectId, RunId,
    TenantId, TenantScope, ToolCallLedgerId, TurnId, UserId,
};
use crate::rules::{decimal_text, invalid, text_result, unit_result, usize_to_string};
use crate::text::{all_ascii_upper, all_chars, is_ascii_upper, trim, trimmed};

verus! {

/// A durable object reference.  Only immutable references are carried in
/// messages; the object store itself lives elsewhere.
#[derive(Debug)]
pub struct ObjectRef {
    pub object_id: String,
    pub version: Option<String>,
}

/// Attachment metadata accepted on a user message.
#[derive(Debug)]
pub struct AttachmentReference {
    pub attachment_id: AttachmentId,
    pub object_id: String,
    pub filename: String,
    pub media_type: Option<String>,
    pub size_bytes: Option<u64>,
    pub sha256: Option<String>,
    pub object_version: Option<String>,
}

pub fn clone_opt(v: &Option<String>) -> (r: Option<String>)
    ensures
        r == *v,
{
    match v {
        Some(s) => Some(s.clone()),
        None => None,
    }
}

impl ObjectRef {
    pub fn copy(&self) -> (r: Self)
        ensures
            r == *self,
    {
        ObjectRef { object_id: self.object_id.clone(), version: clone_opt(&self.version) }
    }
}

impl AttachmentReference {
    /// The object this attachment points at, in the version it was attached.
    pub fn object_ref(&self) -> (r: ObjectRef)
        ensures
            r.object_id == self.object_id,
            r.version == self.object_version,
    {
        ObjectRef { object_id: self.object_id.clone(), version: clone_opt(&self.object_version) }
    }

    pub fn copy(&self) -> (r: Self)
        ensures
            r == *self,
    {
        AttachmentReference {
            attachment_id: self.attachment_id,
            object_id: self.object_id.clone(),
            filename: self.filename.clone(),
            media_type: clone_opt(&self.media_type),
            size_bytes: self.size_bytes,
            sha256: clone_opt(&self.sha256),
            object_version: clone_opt(&self.object_version),
        }
    }
}

pub fn copy_attachments(v: &Vec<AttachmentReference>) -> (r: Vec<AttachmentReference>)
    ensures
        r@ == v@,
{
    let mut out: Vec<AttachmentReference> = Vec::new();
    let mut i: usize = 0;
    while i < v.len()
        invariant
            i <= v.len(),
            out@ == v@.take(i as int),
        decreases v.len() - i,
    {
        out.push(v[i].copy());
        assert(v@.take(i + 1) =~= v@.take(i as int).push(v@[i as int]));
        i += 1;
    }
    assert(v@.take(v.len() as int) =~= v@);
    out
}

#[derive(Debug, Clone, Copy, PartialEq, Eq, Structural)]
pub enum ConversationStatus {
    Active,
    Archived,
}

#[derive(Debug, Clone, Copy, PartialEq, Eq, Structural)]
pub enum MessageRole {
    User,
    Assistant,
    System,
    Tool,
}

#[derive(Debug, Clone, Copy, PartialEq, Eq, Structural)]
pub enum TurnStatus {
    Queued,
    Running,
    Succeeded,
    Failed,
    Cancelled,
}

#[derive(Debug, Clone, Copy, PartialEq, Eq, Structural)]
pub enum RunStatus {
    Queued,
    Running,
    Succeeded,
    Failed,
    Cancelled,
}

pub open spec fn run_terminal(status: RunStatus) -> bool {
    status == RunStatus::Succeeded || status == RunStatus::Failed || status == RunStatus::Cancelled
}

#[derive(Debug, Clone, Copy, PartialEq, Eq, Structural)]
pub enum RuntimeCapabilityStatus {
    Available,
    Missing,
    Unavailable,
}

/// The runtime capability observed when a run was accepted.  It is kept apart
/// from the run status: a run can be accepted and durably failed with
/// `capability_missing` while the snapshot stays on record.
#[derive(Debug)]
pub struct RuntimeCapability {
    pub status: RuntimeCapabilityStatus,
    pub runtime: String,
    pub version: Option<String>,
    pub reason: Option<String>,
}

/// The one reason an unconfigured assembly gives, whether it refuses work at
/// acceptance or reports why a turn could not run.
pub const RUNTIME_NOT_CONFIGURED: &'static str = "embedded JavaScript runtime is not configured";

impl RuntimeCapability {
    pub fn missing(reason: String) -> (c: Self)
        ensures
            c.status == RuntimeCapabilityStatus::Missing,
            c.runtime@ == "deno_core"@,
            c.version is None,
            c.reason == Some(reason),
    {
        proof {
            reveal_strlit("deno_core");
        }
        RuntimeCapability {
            status: RuntimeCapabilityStatus::Missing,
            runtime: String::from_str("deno_core"),
            version: None,
            reason: Some(reason),
        }
    }

    pub fn unavailable(reason: String) -> (c: Self)
        ensures
            c.status == RuntimeCapabilityStatus::Unavailable,
            c.runtime@ == "deno_core"@,
            c.version is None,
            c.reason == Some(reason),
    {
        proof {
            reveal_strlit("deno_core");
        }
        RuntimeCapability {
            status: RuntimeCapabilityStatus::Unavailable,
            runtime: String::from_str("deno_core"),
            version: None,
            reason: Some(reason),
        }
    }

    pub fn available(runtime: String, version: Option<String>) -> (c: Self)
        ensures
            c.status == RuntimeCapabilityStatus::Available,
            c.runtime == runtime,
            c.version == version,
            c.reason is None,
    {
        RuntimeCapability { status: RuntimeCapabilityStatus::Available, runtime, version, reason: None }
    }

    pub fn is_available(&self) -> (r: bool)
        ensures
            r == (self.status == RuntimeCapabilityStatus::Available),
    {
        self.status == RuntimeCapabilityStatus::Available
    }

    pub fn copy(&self) -> (r: Self)
        ensures
            r == *self,
    {
        RuntimeCapability {
            status: self.status,
            runtime: self.runtime.clone(),
            version: clone_opt(&self.version),
            reason: clone_opt(&self.reason),
        }
    }
}

#[derive(Debug)]
pub struct Conversation {
    pub id: ConversationId,
    pub operator_id: OperatorId,
    pub tenant_id: TenantId,
    pub project_id: ProjectId,
    pub created_by: Option<UserId>,
    pub title: Option<String>,
    pub status: ConversationStatus,
    pub revision: u64,
    /// Microseconds since the Unix epoch.
    pub created_at: i64,
    pub updated_at: i64,
}

pub open spec fn owner_scope(operator_id: OperatorId, tenant_id: TenantId, project_id: ProjectId) -> TenantScope {
    TenantScope { operator_id, tenant_id, project_id: Some(project_id) }
}

impl Conversation {
    pub fn scope(&self) -> (s: TenantScope)
        ensures
            s == owner_scope(self.operator_id, self.tenant_id, self.project_id),
    {
        TenantScope::new(self.operator_id, self.tenant_id, Some(self.project_id))
    }

    pub fn copy(&self) -> (r: Self)
        ensures
            r == *self,
    {
        Conversation {
            id: self.id,
            operator_id: self.operator_id,
            tenant_id: self.tenant_id,
            project_id: self.project_id,
            created_by: self.created_by,
            title: clone_opt(&self.title),
            status: self.status,
            revision: self.revision,
            created_at: self.created_at,
            updated_at: self.updated_at,
        }
    }
}

#[derive(Debug)]
pub struct Message {
    pub id: MessageId,
    pub conversation_id: ConversationId,
    pub operator_id: OperatorId,
    pub tenant_id: TenantId,
    pub project_id: ProjectId,
    pub turn_id: Option<TurnId>,
    pub role: MessageRole,
    pub content: String,
    pub attachments: Vec<AttachmentReference>,
    /// The message metadata as JSON text.
    pub metadata: String,
    pub sequence: u64,
    pub created_at: i64,
}

pub struct MessageV {
    pub id: MessageId,
    pub conversation_id: ConversationId,
    pub operator_id: OperatorId,
    pub tenant_id: TenantId,
    pub project_id: ProjectId,
    pub turn_id: Option<TurnId>,
    pub role: MessageRole,
    pub content: Seq<char>,
    pub attachments: Seq<AttachmentReference>,
    pub metadata: Seq<char>,
    pub sequence: u64,
    pub created_at: i64,
}

impl View for Message {
    type V = MessageV;

    open spec fn view(&self) -> MessageV {
        MessageV {
            id: self.id,
            conversation_id: self.conversation_id,
            operator_id: self.operator_id,
            tenant_id: self.tenant_id,
            project_id: self.project_id,
            turn_id: self.turn_id,
            role: self.role,
            content: self.content@,
            attachments: self.attachments@,
            metadata: self.metadata@,
            sequence: self.sequence,
            created_at: self.created_at,
        }
    }
}

impl Message {
    pub fn scope(&self) -> (s: TenantScope)
        ensures
            s == owner_scope(self.operator_id, self.tenant_id, self.project_id),
    {
        TenantScope::new(self.operator_id, self.tenant_id, Some(self.project_id))
    }

    pub fn copy(&self) -> (r: Self)
        ensures
            r@ == self@,
    {
        Message {
            id: self.id,
            conversation_id: self.conversation_id,
            operator_id: self.operator_id,
            tenant_id: self.tenant_id,
            project_id: self.project_id,
            turn_id: self.turn_id,
            role: self.role,
            content: self.content.clone(),
            attachments: copy_attachments(&self.attachments),
            metadata: self.metadata.clone(),
            sequence: self.sequence,
            created_at: self.created_at,
        }
    }
}

#[derive(Debug)]
pub struct Turn {
    pub id: TurnId,
    pub conversation_id: ConversationId,
    pub root_message_id: MessageId,
    pub previous_turn_id: Option<TurnId>,
    pub run_id: Option<RunId>,
    pub status: TurnStatus,
    pub cancel_version: u64,
    pub created_at: i64,
    pub updated_at: i64,
}

impl Turn {
    pub fn copy(&self) -> (r: Self)
        ensures
            r == *self,
    {
        Turn {
            id: self.id,
            conversation_id: self.conversation_id,
            root_message_id: self.root_message_id,
            previous_turn_id: self.previous_turn_id,
            run_id: self.run_id,
            status: self.status,
            cancel_version: self.cancel_version,
            created_at: self.created_at,
            updated_at: self.updated_at,
        }
    }
}

#[derive(Debug)]
pub struct Run {
    pub id: RunId,
    pub conversation_id: ConversationId,
    pub turn_id: TurnId,
    pub operator_id: OperatorId,
    pub tenant_id: TenantId,
    pub project_id: ProjectId,
    pub status: RunStatus,
    pub capability: RuntimeCapability,
    pub error: Option<AppError>,
    pub cancel_version: u64,
    pub created_at: i64,
    pub updated_at: i64,
}

pub fn copy_opt_error(e: &Option<AppError>) -> (r: Option<AppError>)
    ensures
        r == *e,
{
    match e {
        Some(e) => Some(e.copy()),
        None => None,
    }
}

impl Run {
    pub fn scope(&self) -> (s: TenantScope)
        ensures
            s == owner_scope(self.operator_id, self.tenant_id, self.project_id),
    {
        TenantScope::new(self.operator_id, self.tenant_id, Some(self.project_id))
    }

    pub fn copy(&self) -> (r: Self)
        ensures
            r == *self,
    {
        Run {
            id: self.id,
            conversation_id: self.conversation_id,
            turn_id: self.turn_id,
            operator_id: self.operator_id,
            tenant_id: self.tenant_id,
            project_id: self.project_id,
            status: self.status,
            capability: self.capability.copy(),
            error: copy_opt_error(&self.error),
            cancel_version: self.cancel_version,
            created_at: self.created_at,
            updated_at: self.updated_at,
        }
    }
}

/// The typed body of a conversation event; the HTTP layer writes it as JSON.
#[derive(Debug)]
pub enum EventPayload {
    ConversationCreated { conversation_id: ConversationId },
    MessageCreated { message: Message },
    TurnAccepted { turn_id: TurnId, run_id: RunId },
    RunRunning { run_id: RunId, status: RunStatus },
    RunSucceeded { run_id: RunId, status: RunStatus },
    RunFailed { run_id: RunId, status: RunStatus, error: AppError },
    RunCancelled { run_id: RunId, cancel_version: u64 },
}

pub enum PayloadV {
    ConversationCreated { conversation_id: ConversationId },
    MessageCreated { message: MessageV },
    TurnAccepted { turn_id: TurnId, run_id: RunId },
    RunRunning { run_id: RunId, status: RunStatus },
    RunSucceeded { run_id: RunId, status: RunStatus },
    RunFailed { run_id: RunId, status: RunStatus, error: AppError },
    RunCancelled { run_id: RunId, cancel_version: u64 },
}

impl View for EventPayload {
    type V = PayloadV;

    open spec fn view(&self) -> PayloadV {
        match self {
            EventPayload::ConversationCreated { conversation_id } => PayloadV::ConversationCreated {
                conversation_id: *conversation_id,
            },
            EventPayload::MessageCreated { message } => PayloadV::MessageCreated { message: message@ },
            EventPayload::TurnAccepted { turn_id, run_id } => PayloadV::TurnAccepted {
                turn_id: *turn_id,
                run_id: *run_id,
            },
            EventPayload::RunRunning { run_id, status } => PayloadV::RunRunning { run_id: *run_id, status: *status },
            EventPayload::RunSucceeded { run_id, status } => PayloadV::RunSucceeded {
                run_id: *run_id,
                status: *status,
            },
            EventPayload::RunFailed { run_id, status, error } => PayloadV::RunFailed {
                run_id: *run_id,
                status: *status,
                error: *error,
            },
            EventPayload::RunCancelled { run_id, cancel_version } => PayloadV::RunCancelled {
                run_id: *run_id,
                cancel_version: *cancel_version,
            },
        }
    }
}

impl EventPayload {
    pub fn copy(&self) -> (r: Self)
        ensures
            r@ == self@,
    {
        match self {
            EventPayload::ConversationCreated { conversation_id } => EventPayload::ConversationCreated {
                conversation_id: *conversation_id,
            },
            EventPayload::MessageCreated { message } => EventPayload::MessageCreated { message: message.copy() },
            EventPayload::TurnAccepted { turn_id, run_id } => EventPayload::TurnAccepted {
                turn_id: *turn_id,
                run_id: *run_id,
            },
            EventPayload::RunRunning { run_id, status } => EventPayload::RunRunning {
                run_id: *run_id,
                status: *status,
            },
            EventPayload::RunSucceeded { run_id, status } => EventPayload::RunSucceeded {
                run_id: *run_id,
                status: *status,
            },
            EventPayload::RunFailed { run_id, status, error } => EventPayload::RunFailed {
                run_id: *run_id,
                status: *status,
                error: error.copy(),
            },
            EventPayload::RunCancelled { run_id, cancel_version } => EventPayload::RunCancelled {
                run_id: *run_id,
                cancel_version: *cancel_version,
            },
        }
    }
}

/// Durable event record used both for replay and live delivery.
#[derive(Debug)]
pub struct ConversationEvent {
    pub id: ConversationEventId,
    pub conversation_id: ConversationId,
    pub operator_id: OperatorId,
    pub tenant_id: TenantId,
    pub project_id: ProjectId,
    pub sequence: u64,
    pub event_type: String,
    pub turn_id: Option<TurnId>,
    pub run_id: Option<RunId>,
    pub payload: EventPayload,
    pub occurred_at: i64,
}

pub struct EventV {
    pub id: ConversationEventId,
    pub conversation_id: ConversationId,
    pub operator_id: OperatorId,
    pub tenant_id: TenantId,
    pub project_id: ProjectId,
    pub sequence: u64,
    pub event_type: Seq<char>,
    pub turn_id: Option<TurnId>,
    pub run_id: Option<RunId>,
    pub payload: PayloadV,
    pub occurred_at: i64,
}

impl View for ConversationEvent {
    type V = EventV;

    open spec fn view(&self) -> EventV {
        EventV {
            id: self.id,
            conversation_id: self.conversation_id,
            operator_id: self.operator_id,
            tenant_id: self.tenant_id,
            project_id: self.project_id,
            sequence: self.sequence,
            event_type: self.event_type@,
            turn_id: self.turn_id,
            run_id: self.run_id,
            payload: self.payload@,
            occurred_at: self.occurred_at,
        }
    }
}

impl ConversationEvent {
    pub fn scope(&self) -> (s: TenantScope)
        ensures
            s == owner_scope(self.operator_id, self.tenant_id, self.project_id),
    {
        TenantScope::new(self.operator_id, self.tenant_id, Some(self.project_id))
    }

    pub fn copy(&self) -> (r: Self)
        ensures
            r@ == self@,
    {
        ConversationEvent {
            id: self.id,
            conversation_id: self.conversation_id,
            operator_id: self.operator_id,
            tenant_id: self.tenant_id,
            project_id: self.project_id,
            sequence: self.sequence,
            event_type: self.event_type.clone(),
            turn_id: self.turn_id,
            run_id: self.run_id,
            payload: self.payload.copy(),
            occurred_at: self.occurred_at,
        }
    }
}

/// A permission or budget verdict recorded before a tool call is attempted.
#[derive(Debug, Clone, Copy, PartialEq, Eq, Structural)]
pub enum ToolCallDecision {
    Allowed,
    Denied,
}

/// Durable lifecycle of one tool call.  `Unknown` is a first-class outcome: a
/// crash after an external send and before the receipt is never retried
/// blindly.
#[derive(Debug, Clone, Copy, PartialEq, Eq, Structural)]
pub enum ToolCallOutcome {
    Intent,
    Attempted,
    Succeeded,
    Failed,
    Unknown,
}

pub fn copy_opt_ref(r: &Option<ObjectRef>) -> (c: Option<ObjectRef>)
    ensures
        c == *r,
{
    match r {
        Some(o) => Some(o.copy()),
        None => None,
    }
}

/// A durable run checkpoint, unique per `(run_id, checkpoint_scope,
/// step_key)` and reusable only while its input digest still matches.
#[derive(Debug)]
pub struct AgentCheckpoint {
    pub id: CheckpointId,
    pub run_id: RunId,
    pub conversation_id: ConversationId,
    pub operator_id: OperatorId,
    pub tenant_id: TenantId,
    pub project_id: ProjectId,
    pub checkpoint_scope: String,
    pub step_key: String,
    pub input_hash: String,
    pub result_ref: Option<ObjectRef>,
    pub version: u64,
    /// The host state as JSON text.
    pub state: String,
    pub created_at: i64,
    pub updated_at: i64,
}

impl AgentCheckpoint {
    pub fn scope(&self) -> (s: TenantScope)
        ensures
            s == owner_scope(self.operator_id, self.tenant_id, self.project_id),
    {
        TenantScope::new(self.operator_id, self.tenant_id, Some(self.project_id))
    }

    pub fn copy(&self) -> (r: Self)
        ensures
            r == *self,
    {
        AgentCheckpoint {
            id: self.id,
            run_id: self.run_id,
            conversation_id: self.conversation_id,
            operator_id: self.operator_id,
            tenant_id: self.tenant_id,
            project_id: self.project_id,
            checkpoint_scope: self.checkpoint_scope.clone(),
            step_key: self.step_key.clone(),
            input_hash: self.input_hash.clone(),
            result_ref: copy_opt_ref(&self.result_ref),
            version: self.version,
            state: self.state.clone(),
            created_at: self.created_at,
            updated_at: self.updated_at,
        }
    }
}

/// A request to store or refresh a run checkpoint.
#[derive(Debug)]
pub struct StoreCheckpoint {
    pub checkpoint_scope: String,
    pub step_key: String,
    pub input_hash: String,
    pub result_ref: Option<ObjectRef>,
    pub state: String,
}

/// One append-only tool-call ledger entry.  Conversation and turn ownership
/// come from the run, never from the caller.
#[derive(Debug)]
pub struct ToolCallLedgerEntry {
    pub id: ToolCallLedgerId,
    pub run_id: RunId,
    pub turn_id: TurnId,
    pub conversation_id: ConversationId,
    pub operator_id: OperatorId,
    pub tenant_id: TenantId,
    pub project_id: ProjectId,
    pub tool_call_id: String,
    pub tool_name: String,
    pub arguments_hash: String,
    pub idempotency_key_hash: String,
    pub permission: ToolCallDecision,
    pub budget: ToolCallDecision,
    /// The recorded intent as JSON text.
    pub intent: String,
    pub attempt_count: u64,
    pub result_ref: Option<ObjectRef>,
    pub outcome: ToolCallOutcome,
    pub cost_minor: Option<i64>,
    pub currency: Option<String>,
    pub created_at: i64,
    pub updated_at: i64,
}

impl ToolCallLedgerEntry {
    pub fn scope(&self) -> (s: TenantScope)
        ensures
            s == owner_scope(self.operator_id, self.tenant_id, self.project_id),
    {
        TenantScope::new(self.operator_id, self.tenant_id, Some(self.project_id))
    }

    pub fn copy(&self) -> (r: Self)
        ensures
            r == *self,
    {
        ToolCallLedgerEntry {
            id: self.id,
            run_id: self.run_id,
            turn_id: self.turn_id,
            conversation_id: self.conversation_id,
            operator_id: self.operator_id,
            tenant_id: self.tenant_id,
            project_id: self.project_id,
            tool_call_id: self.tool_call_id.clone(),
            tool_name: self.tool_name.clone(),
            arguments_hash: self.arguments_hash.clone(),
            idempotency_key_hash: self.idempotency_key_hash.clone(),
            permission: self.permission,
            budget: self.budget,
            intent: self.intent.clone(),
            attempt_count: self.attempt_count,
            result_ref: copy_opt_ref(&self.result_ref),
            outcome: self.outcome,
            cost_minor: self.cost_minor,
            currency: clone_opt(&self.currency),
            created_at: self.created_at,
            updated_at: self.updated_at,
        }
    }
}

/// A request to append one tool-call ledger entry.
#[derive(Debug)]
pub struct RecordToolCall {
    pub run_id: RunId,
    pub tool_call_id: String,
    pub tool_name: String,
    pub arguments_hash: String,
    pub idempotency_key_hash: String,
    pub permission: ToolCallDecision,
    pub budget: ToolCallDecision,
    pub intent: String,
    pub attempt_count: u64,
    pub result_ref: Option<ObjectRef>,
    pub outcome: ToolCallOutcome,
    pub cost_minor: Option<i64>,
    pub currency: Option<String>,
}

// ---------------------------------------------------------------------------
// Validation.
// ---------------------------------------------------------------------------

/// A bounded identifier or digest: not blank, at most `max` characters.
pub open spec fn bounded_key_rule(field: Seq<char>, value: Seq<char>, max: nat) -> Result<(), ErrorV> {
    if trimmed(value).len() == 0 || value.len() > max {
        Err(invalid(field + " must be between 1 and "@ + decimal_text(max) + " characters"@))
    } else {
        Ok(())
    }
}

fn validate_bounded_key(field: &str, value: &str, max: usize) -> (r: Result<(), AppError>)
    ensures
        unit_result(r) == bounded_key_rule(field@, value@, max as nat),
{
    if trim(value).unicode_len() == 0 || value.unicode_len() > max {
        let text = String::from_str(field).concat(" must be between 1 and ");
        let n = usize_to_string(max);
        let text = text.concat(n.as_str()).concat(" characters");
        proof {
            reveal_strlit(" must be between 1 and ");
            reveal_strlit(" characters");
        }
        return Err(AppError::with_message(ErrorCode::InvalidRequest, text));
    }
    Ok(())
}

/// A checkpoint scope, step or tool-call identifier: 1 to 200 characters.
pub fn validate_agent_key(field: &str, value: &str) -> (r: Result<(), AppError>)
    ensures
        unit_result(r) == bounded_key_rule(field@, value@, 200),
{
    validate_bounded_key(field, value, 200)
}

/// An opaque digest the store never inspects: 1 to 512 characters.
pub fn validate_agent_digest(field: &str, value: &str) -> (r: Result<(), AppError>)
    ensures
        unit_result(r) == bounded_key_rule(field@, value@, 512),
{
    validate_bounded_key(field, value, 512)
}

/// The longest message body either repository persists.
pub const MAX_MESSAGE_CHARS: usize = 100000;

/// Message metadata as given on an append: content, attachments and metadata.
#[derive(Debug)]
pub struct AppendMessage {
    pub content: String,
    pub attachments: Vec<AttachmentReference>,
    /// The metadata as JSON text.
    pub metadata: String,
}

pub open spec fn attachment_rule(a: AttachmentReference) -> Option<ErrorV> {
    if trimmed(a.object_id@).len() == 0 || a.object_id@.len() > 500 {
        Some(invalid("attachment object_id must be between 1 and 500 characters"@))
    } else if trimmed(a.filename@).len() == 0 || a.filename@.len() > 512 {
        Some(invalid("attachment filename must be between 1 and 512 characters"@))
    } else if a.size_bytes matches Some(size) && size > 100 * 1024 * 1024 {
        Some(invalid("attachment size_bytes must be at most 100 MiB"@))
    } else {
        None
    }
}

/// The first attachment rule that a list breaks, in order.
pub open spec fn attachments_rule(s: Seq<AttachmentReference>) -> Option<ErrorV>
    decreases s.len(),
{
    if s.len() == 0 {
        None
    } else {
        match attachments_rule(s.drop_last()) {
            Some(e) => Some(e),
            None => attachment_rule(s.last()),
        }
    }
}

pub open spec fn content_too_long() -> ErrorV {
    invalid("message content must be at most 100000 characters"@)
}

/// The trimmed content of a user message, or the rule it breaks.
pub open spec fn append_message_rule(content: Seq<char>, attachments: Seq<AttachmentReference>) -> Result<
    Seq<char>,
    ErrorV,
> {
    let t = trimmed(content);
    if t.len() == 0 && attachments.len() == 0 {
        Err(invalid("message content or at least one attachment is required"@))
    } else if t.len() > 100000 {
        Err(content_too_long())
    } else if attachments.len() > 100 {
        Err(invalid("a message may contain at most 100 attachments"@))
    } else {
        match attachments_rule(attachments) {
            Some(e) => Err(e),
            None => Ok(t),
        }
    }
}

fn check_attachment(a: &AttachmentReference) -> (r: Result<(), AppError>)
    ensures
        match attachment_rule(*a) {
            Some(e) => unit_result(r) == Err::<(), ErrorV>(e),
            None => r is Ok,
        },
{
    if trim(a.object_id.as_str()).unicode_len() == 0 || a.object_id.unicode_len() > 500 {
        return Err(AppError::invalid_request("attachment object_id must be between 1 and 500 characters"));
    }
    if trim(a.filename.as_str()).unicode_len() == 0 || a.filename.unicode_len() > 512 {
        return Err(AppError::invalid_request("attachment filename must be between 1 and 512 characters"));
    }
    if let Some(size) = a.size_bytes {
        if size > 100 * 1024 * 1024 {
            return Err(AppError::invalid_request("attachment size_bytes must be at most 100 MiB"));
        }
    }
    Ok(())
}

/// The validation a user message goes through in every repository.  Returns
/// the trimmed content to persist.
pub fn validate_append_message(input: &AppendMessage) -> (r: Result<String, AppError>)
    ensures
        text_result(r) == append_message_rule(input.content@, input.attachments@),
{
    let content = trim(input.content.as_str());
    let n = content.unicode_len();
    if n == 0 && input.attachments.len() == 0 {
        return Err(AppError::invalid_request("message content or at least one attachment is required"));
    }
    if n > MAX_MESSAGE_CHARS {
        return Err(AppError::invalid_request("message content must be at most 100000 characters"));
    }
    if input.attachments.len() > 100 {
        return Err(AppError::invalid_request("a message may contain at most 100 attachments"));
    }
    let ghost all = input.attachments@;
    let mut i: usize = 0;
    while i < input.attachments.len()
        invariant
            i <= input.attachments.len(),
            all == input.attachments@,
            attachments_rule(all.take(i as int)) is None,
            append_message_rule(input.content@, all) == (match attachments_rule(all) {
                Some(e) => Err(e),
                None => Ok::<Seq<char>, ErrorV>(trimmed(input.content@)),
            }),
        decreases input.attachments.len() - i,
    {
        assert(all.take(i + 1).drop_last() =~= all.take(i as int));
        assert(all.take(i + 1).last() == all[i as int]);
        match check_attachment(&input.attachments[i]) {
            Ok(()) => {},
            Err(e) => {
                proof {
                    assert(attachments_rule(all.take(i + 1)) == attachment_rule(all[i as int]));
                    lemma_attachments_rule_extends(all, i + 1);
                }
                return Err(e);
            },
        }
        i += 1;
    }
    assert(all.take(all.len() as int) =~= all);
    Ok(content.to_owned())
}

/// Once a prefix breaks a rule, the whole list breaks it the same way.
pub proof fn lemma_attachments_rule_extends(s: Seq<AttachmentReference>, k: int)
    requires
        0 <= k <= s.len(),
        attachments_rule(s.take(k)) is Some,
    ensures
        attachments_rule(s) == attachments_rule(s.take(k)),
    decreases s.len() - k,
{
    if k == s.len() {
        assert(s.take(k) =~= s);
    } else {
        assert(s.take(k + 1).drop_last() =~= s.take(k));
        lemma_attachments_rule_extends(s, k + 1);
    }
}

/// The trimmed body of a message that must not be empty.
pub open spec fn message_content_rule(content: Seq<char>) -> Result<Seq<char>, ErrorV> {
    let t = trimmed(content);
    if t.len() == 0 {
        Err(invalid("message content must not be empty"@))
    } else if t.len() > 100000 {
        Err(content_too_long())
    } else {
        Ok(t)
    }
}

/// The validation of a body with no attachment escape hatch, such as an
/// answer.  Returns the trimmed content to persist.
pub fn validate_message_content(content: &str) -> (r: Result<String, AppError>)
    ensures
        text_result(r) == message_content_rule(content@),
{
    let t = trim(content);
    let n = t.unicode_len();
    if n == 0 {
        return Err(AppError::invalid_request("message content must not be empty"));
    }
    if n > MAX_MESSAGE_CHARS {
        return Err(AppError::invalid_request("message content must be at most 100000 characters"));
    }
    Ok(t.to_owned())
}

pub open spec fn object_ref_rule(r: Option<ObjectRef>) -> Result<(), ErrorV> {
    match r {
        None => Ok(()),
        Some(o) => if trimmed(o.object_id@).len() == 0 || o.object_id@.len() > 500 {
            Err(invalid("object_id must be between 1 and 500 characters"@))
        } else {
            Ok(())
        },
    }
}

pub fn validate_object_ref(object_ref: Option<&ObjectRef>) -> (r: Result<(), AppError>)
    ensures
        unit_result(r) == object_ref_rule(match object_ref {
            Some(o) => Some(*o),
            None => None,
        }),
{
    match object_ref {
        None => Ok(()),
        Some(o) => {
            if trim(o.object_id.as_str()).unicode_len() == 0 || o.object_id.unicode_len() > 500 {
                return Err(AppError::invalid_request("object_id must be between 1 and 500 characters"));
            }
            Ok(())
        },
    }
}

pub open spec fn checkpoint_write_rule(c: StoreCheckpoint) -> Result<(), ErrorV> {
    match bounded_key_rule("checkpoint_scope"@, c.checkpoint_scope@, 200) {
        Err(e) => Err(e),
        Ok(()) => match bounded_key_rule("step_key"@, c.step_key@, 200) {
            Err(e) => Err(e),
            Ok(()) => match bounded_key_rule("input_hash"@, c.input_hash@, 512) {
                Err(e) => Err(e),
                Ok(()) => object_ref_rule(c.result_ref),
            },
        },
    }
}

/// The validation a checkpoint write goes through in every repository.
pub fn validate_checkpoint_write(input: &StoreCheckpoint) -> (r: Result<(), AppError>)
    ensures
        unit_result(r) == checkpoint_write_rule(*input),
{
    validate_agent_key("checkpoint_scope", input.checkpoint_scope.as_str())?;
    validate_agent_key("step_key", input.step_key.as_str())?;
    validate_agent_digest("input_hash", input.input_hash.as_str())?;
    validate_object_ref(input.result_ref.as_ref())?;
    Ok(())
}

pub open spec fn is_currency_code(c: Seq<char>) -> bool {
    c.len() == 3 && all_chars(c, |ch: char| is_ascii_upper(ch))
}

pub open spec fn tool_call_write_rule(c: RecordToolCall) -> Result<(), ErrorV> {
    match bounded_key_rule("tool_call_id"@, c.tool_call_id@, 200) {
        Err(e) => Err(e),
        Ok(()) => match bounded_key_rule("tool_name"@, c.tool_name@, 200) {
            Err(e) => Err(e),
            Ok(()) => match bounded_key_rule("arguments_hash"@, c.arguments_hash@, 512) {
                Err(e) => Err(e),
                Ok(()) => match bounded_key_rule("idempotency_key_hash"@, c.idempotency_key_hash@, 512) {
                    Err(e) => Err(e),
                    Ok(()) => match object_ref_rule(c.result_ref) {
                        Err(e) => Err(e),
                        Ok(()) => if c.currency matches Some(cur) && !is_currency_code(cur@) {
                            Err(invalid("currency must be a three letter uppercase code"@))
                        } else if c.cost_minor matches Some(cost) && cost < 0 {
                            Err(invalid("cost_minor must not be negative"@))
                        } else {
                            Ok(())
                        },
                    },
                },
            },
        },
    }
}

/// The validation a tool-call ledger append goes through in every repository.
pub fn validate_tool_call_write(input: &RecordToolCall) -> (r: Result<(), AppError>)
    ensures
        unit_result(r) == tool_call_write_rule(*input),
{
    validate_agent_key("tool_call_id", input.tool_call_id.as_str())?;
    validate_agent_key("tool_name", input.tool_name.as_str())?;
    validate_agent_digest("arguments_hash", input.arguments_hash.as_str())?;
    validate_agent_digest("idempotency_key_hash", input.idempotency_key_hash.as_str())?;
    validate_object_ref(input.result_ref.as_ref())?;
    if let Some(currency) = &input.currency {
        if currency.as_str().unicode_len() != 3 || !all_ascii_upper(currency.as_str()) {
            return Err(AppError::invalid_request("currency must be a three letter uppercase code"));
        }
    }
    if let Some(cost) = input.cost_minor {
        if cost < 0 {
            return Err(AppError::invalid_request("cost_minor must not be negative"));
        }
    }
    Ok(())
}

// ---------------------------------------------------------------------------
// Requests and answers.
// ---------------------------------------------------------------------------

#[derive(Debug)]
pub struct CreateConversation {
    pub title: Option<String>,
}

impl CreateConversation {
    pub fn default() -> (c: Self)
        ensures
            c.title is None,
    {
        CreateConversation { title: None }
    }
}

#[derive(Debug)]
pub struct SubmitAcceptance {
    pub conversation: Conversation,
    pub message: Message,
    pub turn: Turn,
    pub run: Run,
    pub events_url: String,
}

pub struct SubmitAcceptanceV {
    pub conversation: Conversation,
    pub message: MessageV,
    pub turn: Turn,
    pub run: Run,
    pub events_url: Seq<char>,
}

impl View for SubmitAcceptance {
    type V = SubmitAcceptanceV;

    open spec fn view(&self) -> SubmitAcceptanceV {
        SubmitAcceptanceV {
            conversation: self.conversation,
            message: self.message@,
            turn: self.turn,
            run: self.run,
            events_url: self.events_url@,
        }
    }
}

impl SubmitAcceptance {
    pub fn copy(&self) -> (r: Self)
        ensures
            r@ == self@,
    {
        SubmitAcceptance {
            conversation: self.conversation.copy(),
            message: self.message.copy(),
            turn: self.turn.copy(),
            run: self.run.copy(),
            events_url: self.events_url.clone(),
        }
    }
}

#[derive(Debug)]
pub struct ConversationDetail {
    pub conversation: Conversation,
    pub messages: Vec<Message>,
    pub turns: Vec<Turn>,
    pub runs: Vec<Run>,
}

/// What one turn needs in order to run, assembled from the run the store
/// actually claimed.
#[derive(Debug)]
pub struct TurnInput {
    pub conversation_id: ConversationId,
    pub turn_id: TurnId,
    pub run_id: RunId,
    pub prompt: String,
}

/// What a runtime reports for a turn that ran; the content is never optional.
#[derive(Debug)]
pub struct TurnReport {
    pub content: String,
    /// The metadata as JSON text.
    pub metadata: String,
}

/// The terminal outcome of one run.  There is no "succeeded without an
/// answer": an answer and a success are recorded together or not at all.
#[derive(Debug)]
pub enum RunCompletion {
    Succeeded { content: String, metadata: String },
    Failed { error: AppError },
}

/// Everything one terminal transition wrote.
#[derive(Debug)]
pub struct RunTransition {
    pub run: Run,
    pub turn: Turn,
    pub message: Option<Message>,
}

/// The runtime of an assembly with no JavaScript executor: it reports the
/// capability as missing and refuses every turn.
#[derive(Debug)]
pub struct MissingAgentRuntime;

impl MissingAgentRuntime {
    pub fn capability(&self) -> (c: RuntimeCapability)
        ensures
            c.status == RuntimeCapabilityStatus::Missing,
            c.runtime@ == "deno_core"@,
            c.reason matches Some(r) && r@ == RUNTIME_NOT_CONFIGURED@,
    {
        RuntimeCapability::missing(String::from_str(RUNTIME_NOT_CONFIGURED))
    }

    pub fn run_turn(&self, scope: &TenantScope, input: TurnInput) -> (r: Result<TurnReport, AppError>)
        ensures
            r matches Err(e) && e@ == err(ErrorCode::CapabilityMissing, RUNTIME_NOT_CONFIGURED@),
    {
        Err(AppError::capability_missing(RUNTIME_NOT_CONFIGURED))
    }
}

} // verus!
