//! The in-memory agent repository: conversations, idempotent message
//! submission, the run lifecycle, the durable event log, checkpoints and the
//! tool-call ledger.  Every read and write is filtered by tenant and project.
//! Each event appended to the log is also queued in an outbox, which the
//! caller drains to deliver events live.

use vstd::prelude::*;
use crate::rules::{text_result, unit_result};
use vstd::string::StringExecFns;
use crate::agent::{
    copy_opt_error, AgentCheckpoint, Conversation, ConversationDetail, ConversationEvent, ConversationStatus, CreateConversation,
    EventPayload, EventV, Message, MessageRole, MessageV, PayloadV, RecordToolCall, Run, RunCompletion, RunStatus,
    RunTransition, RuntimeCapability, StoreCheckpoint, SubmitAcceptance, SubmitAcceptanceV, ToolCallLedgerEntry, Turn,
    TurnStatus, append_message_rule, checkpoint_write_rule, clone_opt, message_content_rule, owner_scope,
    run_terminal, tool_call_write_rule, validate_append_message, validate_checkpoint_write,
    validate_message_content, validate_tool_call_write,
};
use crate::clock::utc_now_micros;
use crate::error::{AppError, ErrorCode, ErrorV, err};
use crate::ids::{
    CheckpointId, ConversationEventId, ConversationId, MessageId, RunId, TenantScope, ToolCallLedgerId, TurnId,
    UserId, new_uuid, scope_contains, uuid_text, uuid_to_string,
};
use crate::rules::invalid;
use crate::sorting::{
    is_sorted_listing, keys_of_places, lemma_keys_of_places_sorted, lemma_keys_of_places_step, lemma_listing_from_keys,
    sort_keys,
};
use crate::text::{opt_text, str_eq, trim, trimmed};

verus! {

// ---------------------------------------------------------------------------
// Lookups over sequences.
// ---------------------------------------------------------------------------

/// Some entry of `s` satisfies `p`.
pub open spec fn exists_in<T>(s: Seq<T>, p: spec_fn(T) -> bool) -> bool {
    exists|i: int| 0 <= i < s.len() && p(#[trigger] s[i])
}

/// The place of an entry of `s` satisfying `p`.
pub open spec fn pick<T>(s: Seq<T>, p: spec_fn(T) -> bool) -> int {
    choose|i: int| 0 <= i < s.len() && p(#[trigger] s[i])
}

/// The entry of `s` satisfying `p`, if any.
pub open spec fn find<T>(s: Seq<T>, p: spec_fn(T) -> bool) -> Option<T> {
    if exists_in(s, p) {
        Some(s[pick(s, p)])
    } else {
        None
    }
}

/// `s` with the entry satisfying `p` replaced by `x`, or `x` added.
pub open spec fn put<T>(s: Seq<T>, p: spec_fn(T) -> bool, x: T) -> Seq<T> {
    if exists_in(s, p) {
        s.update(pick(s, p), x)
    } else {
        s.push(x)
    }
}

pub open spec fn conversation_is(id: ConversationId) -> spec_fn(Conversation) -> bool {
    |c: Conversation| c.id == id
}

pub open spec fn message_is(id: MessageId) -> spec_fn(MessageV) -> bool {
    |m: MessageV| m.id == id
}

pub open spec fn turn_is(id: TurnId) -> spec_fn(Turn) -> bool {
    |t: Turn| t.id == id
}

pub open spec fn run_is(id: RunId) -> spec_fn(Run) -> bool {
    |r: Run| r.id == id
}

pub open spec fn counter_is(id: ConversationId) -> spec_fn((ConversationId, u64)) -> bool {
    |c: (ConversationId, u64)| c.0 == id
}

pub open spec fn submission_is(key: Seq<char>, id: ConversationId) -> spec_fn(SubmissionV) -> bool {
    |s: SubmissionV| s.idempotency_key_hash == key && s.conversation_id == id
}

pub open spec fn checkpoint_is(run_id: RunId, scope: Seq<char>, step: Seq<char>) -> spec_fn(AgentCheckpoint) -> bool {
    |c: AgentCheckpoint| c.run_id == run_id && c.checkpoint_scope@ == scope && c.step_key@ == step
}

pub open spec fn tool_call_is(run_id: RunId, tool_call_id: Seq<char>) -> spec_fn(ToolCallLedgerEntry) -> bool {
    |e: ToolCallLedgerEntry| e.run_id == run_id && e.tool_call_id@ == tool_call_id
}

/// The counter of conversation `id`; zero before its first use.
pub open spec fn counter_of(cs: Seq<(ConversationId, u64)>, id: ConversationId) -> u64 {
    match find(cs, counter_is(id)) {
        Some(c) => c.1,
        None => 0,
    }
}


/// At most one entry of `s` satisfies `p`.
pub open spec fn at_most_one<T>(s: Seq<T>, p: spec_fn(T) -> bool) -> bool {
    forall|i: int, j: int| 0 <= i < s.len() && 0 <= j < s.len() && p(#[trigger] s[i]) && p(#[trigger] s[j]) ==> i == j
}

pub proof fn lemma_unique_key_at_most_one<T, K>(s: Seq<T>, key: spec_fn(T) -> K, p: spec_fn(T) -> bool, k: K)
    requires
        keys_unique(s, key),
        forall|y: T| #[trigger] p(y) <==> key(y) == k,
    ensures
        at_most_one(s, p),
{
    assert forall|i: int, j: int| 0 <= i < s.len() && 0 <= j < s.len() && p(#[trigger] s[i]) && p(#[trigger] s[j]) implies i
        == j by {
        assert(key(s[i]) == key(s[j]));
    }
}

/// Writing `x` under its own key keeps keys unique.
pub open spec fn has_conversation(cs: Seq<Conversation>, id: ConversationId) -> bool {
    exists|j: int| 0 <= j < cs.len() && #[trigger] cs[j].id == id
}

pub open spec fn has_turn(ts: Seq<Turn>, id: TurnId) -> bool {
    exists|j: int| 0 <= j < ts.len() && #[trigger] ts[j].id == id
}

/// Writing a conversation keeps every stored conversation id and adds its own.
pub proof fn lemma_put_conversation_ids(s: Seq<Conversation>, c: Conversation)
    ensures
        has_conversation(put(s, conversation_is(c.id), c), c.id),
        forall|id: ConversationId| has_conversation(s, id) ==> #[trigger] has_conversation(put(s, conversation_is(c.id), c), id),
{
    let t = put(s, conversation_is(c.id), c);
    if exists_in(s, conversation_is(c.id)) {
        let k = pick(s, conversation_is(c.id));
        assert(t[k].id == c.id);
        assert forall|id: ConversationId| has_conversation(s, id) implies #[trigger] has_conversation(t, id) by {
            let j = choose|j: int| 0 <= j < s.len() && #[trigger] s[j].id == id;
            assert(t[j].id == id);
        }
    } else {
        assert(t[s.len() as int].id == c.id);
        assert forall|id: ConversationId| has_conversation(s, id) implies #[trigger] has_conversation(t, id) by {
            let j = choose|j: int| 0 <= j < s.len() && #[trigger] s[j].id == id;
            assert(t[j].id == id);
        }
    }
}

/// Writing a turn keeps every stored turn id and adds its own.
pub proof fn lemma_put_turn_ids(s: Seq<Turn>, x: Turn)
    ensures
        has_turn(put(s, turn_is(x.id), x), x.id),
        forall|id: TurnId| has_turn(s, id) ==> #[trigger] has_turn(put(s, turn_is(x.id), x), id),
{
    let t = put(s, turn_is(x.id), x);
    if exists_in(s, turn_is(x.id)) {
        let k = pick(s, turn_is(x.id));
        assert(t[k].id == x.id);
        assert forall|id: TurnId| has_turn(s, id) implies #[trigger] has_turn(t, id) by {
            let j = choose|j: int| 0 <= j < s.len() && #[trigger] s[j].id == id;
            assert(t[j].id == id);
        }
    } else {
        assert(t[s.len() as int].id == x.id);
        assert forall|id: TurnId| has_turn(s, id) implies #[trigger] has_turn(t, id) by {
            let j = choose|j: int| 0 <= j < s.len() && #[trigger] s[j].id == id;
            assert(t[j].id == id);
        }
    }
}

/// Links depend on conversations, turns and runs alone.
pub proof fn lemma_linked_same(a: AgentStoreV, b: AgentStoreV)
    requires
        a.linked(),
        a.conversations == b.conversations,
        a.turns == b.turns,
        a.runs == b.runs,
    ensures
        b.linked(),
{
}

/// Every entry of `put(s, p, x)` is `x` or an entry of `s`.
pub proof fn lemma_put_entries<T>(s: Seq<T>, p: spec_fn(T) -> bool, x: T, i: int)
    requires
        0 <= i < put(s, p, x).len(),
    ensures
        put(s, p, x)[i] == x || (i < s.len() && put(s, p, x)[i] == s[i]),
{
}

pub proof fn lemma_put_keeps_keys_unique<T, K>(s: Seq<T>, key: spec_fn(T) -> K, p: spec_fn(T) -> bool, x: T)
    requires
        keys_unique(s, key),
        forall|y: T| #[trigger] p(y) <==> key(y) == key(x),
    ensures
        keys_unique(put(s, p, x), key),
{
    let t = put(s, p, x);
    if exists_in(s, p) {
        let k = pick(s, p);
        assert(p(s[k]));
        assert forall|i: int, j: int| 0 <= i < t.len() && 0 <= j < t.len() && key(#[trigger] t[i]) == key(
            #[trigger] t[j],
        ) implies i == j by {
            if i != k && j != k {
                assert(key(s[i]) == key(s[j]));
            } else if i == k && j != k {
                assert(p(s[j]));
                assert(key(s[j]) == key(s[k]));
            } else if j == k && i != k {
                assert(p(s[i]));
                assert(key(s[i]) == key(s[k]));
            }
        }
    } else {
        assert forall|i: int, j: int| 0 <= i < t.len() && 0 <= j < t.len() && key(#[trigger] t[i]) == key(
            #[trigger] t[j],
        ) implies i == j by {
            if i < s.len() && j < s.len() {
                assert(key(s[i]) == key(s[j]));
            } else if i < s.len() {
                assert(p(s[i]));
            } else if j < s.len() {
                assert(p(s[j]));
            }
        }
    }
}

/// After writing `x`, looking up its key finds `x`.
pub proof fn lemma_find_put_same<T>(s: Seq<T>, p: spec_fn(T) -> bool, x: T)
    requires
        at_most_one(s, p),
        p(x),
    ensures
        find(put(s, p, x), p) == Some(x),
        exists_in(put(s, p, x), p),
{
    let t = put(s, p, x);
    if exists_in(s, p) {
        let k = pick(s, p);
        assert(p(t[k]));
        let j = pick(t, p);
        assert(p(t[j]));
        if j != k {
            assert(p(s[j]));
            assert(p(s[k]));
        }
    } else {
        assert(p(t[s.len() as int]));
        let j = pick(t, p);
        assert(p(t[j]));
        if j < s.len() {
            assert(p(s[j]));
        }
    }
}

/// Writing `x` under another key leaves a lookup unchanged.
pub proof fn lemma_find_put_other<T>(s: Seq<T>, p: spec_fn(T) -> bool, q: spec_fn(T) -> bool, x: T)
    requires
        at_most_one(s, q),
        at_most_one(s, p),
        !q(x),
        forall|y: T| !(#[trigger] p(y) && q(y)),
    ensures
        find(put(s, p, x), q) == find(s, q),
        exists_in(put(s, p, x), q) == exists_in(s, q),
{
    let t = put(s, p, x);
    if exists_in(s, q) {
        let k = pick(s, q);
        assert(q(s[k]));
        assert(!p(s[k]));
        if exists_in(s, p) {
            let m = pick(s, p);
            assert(p(s[m]));
            assert(m != k);
        }
        assert(t[k] == s[k]);
        assert(q(t[k]));
        let j = pick(t, q);
        assert(q(t[j]));
        if j != k {
            if exists_in(s, p) && j == pick(s, p) {
            } else if j < s.len() {
                assert(q(s[j]));
            }
        }
    } else {
        if exists_in(t, q) {
            let j = pick(t, q);
            assert(q(t[j]));
            if exists_in(s, p) && j == pick(s, p) {
            } else if j < s.len() {
                assert(q(s[j]));
            }
        }
    }
}



/// Two writes under one key leave the second.
pub proof fn lemma_put_put<T>(s: Seq<T>, p: spec_fn(T) -> bool, x: T, y: T)
    requires
        at_most_one(s, p),
        p(x),
        p(y),
    ensures
        put(put(s, p, x), p, y) == put(s, p, y),
        at_most_one(put(s, p, x), p),
{
    let t = put(s, p, x);
    if exists_in(s, p) {
        let k = pick(s, p);
        assert(p(s[k]));
        assert forall|i: int, j: int| 0 <= i < t.len() && 0 <= j < t.len() && p(#[trigger] t[i]) && p(#[trigger] t[j]) implies i
            == j by {
            if i != k {
                assert(p(s[i]));
            }
            if j != k {
                assert(p(s[j]));
            }
        }
        assert(p(t[k]));
        let j = pick(t, p);
        assert(p(t[j]));
        assert(put(t, p, y) =~= s.update(k, y));
    } else {
        let n = s.len() as int;
        assert forall|i: int, j: int| 0 <= i < t.len() && 0 <= j < t.len() && p(#[trigger] t[i]) && p(#[trigger] t[j]) implies i
            == j by {
            if i < n {
                assert(p(s[i]));
            }
            if j < n {
                assert(p(s[j]));
            }
        }
        assert(p(t[n]));
        let j = pick(t, p);
        assert(p(t[j]));
        assert(put(t, p, y) =~= s.push(y));
    }
}

// ---------------------------------------------------------------------------
// Message submission.
// ---------------------------------------------------------------------------

pub open spec fn turn_of(conversation_id: ConversationId) -> spec_fn(Turn) -> bool {
    |t: Turn| t.conversation_id == conversation_id
}

pub open spec fn active_turn_of(conversation_id: ConversationId) -> spec_fn(Turn) -> bool {
    |t: Turn| t.conversation_id == conversation_id && (t.status == TurnStatus::Queued || t.status == TurnStatus::Running)
}

/// `prev` names a turn of the conversation created no earlier than any other
/// of its turns, or is `None` when the conversation has no turn yet.
pub open spec fn is_latest_turn(turns: Seq<Turn>, conversation_id: ConversationId, prev: Option<TurnId>) -> bool {
    match prev {
        None => !exists_in(turns, turn_of(conversation_id)),
        Some(id) => exists|i: int|
            0 <= i < turns.len() && #[trigger] turns[i].id == id && turns[i].conversation_id == conversation_id
                && forall|j: int|
                0 <= j < turns.len() && (#[trigger] turns[j]).conversation_id == conversation_id ==> turns[j].created_at
                    <= turns[i].created_at,
    }
}

pub open spec fn key_reused_for_message() -> ErrorV {
    err(ErrorCode::Conflict, "Idempotency-Key was already used with a different message request"@)
}

pub open spec fn conversation_archived() -> ErrorV {
    err(ErrorCode::Conflict, "conversation is archived"@)
}

pub open spec fn turn_already_active() -> ErrorV {
    err(ErrorCode::Conflict, "conversation already has an active turn"@)
}

/// How far a submission gets before anything is written.
pub enum AppendStep {
    Rejected(ErrorV),
    Replayed(SubmitAcceptanceV),
    Fresh(Conversation, Seq<char>),
}

pub open spec fn append_step(
    s: AgentStoreV,
    scope: TenantScope,
    conversation_id: ConversationId,
    content: Seq<char>,
    attachments: Seq<crate::agent::AttachmentReference>,
    key: Seq<char>,
    request_hash: Seq<char>,
) -> AppendStep {
    match append_message_rule(content, attachments) {
        Err(e) => AppendStep::Rejected(e),
        Ok(text) => match find(s.conversations, conversation_is(conversation_id)) {
            None => AppendStep::Rejected(conversation_not_found()),
            Some(c) => if !sees(scope, c) {
                AppendStep::Rejected(conversation_not_found())
            } else {
                match find(s.submissions, submission_is(key, conversation_id)) {
                    Some(sub) => if sub.request_hash != request_hash {
                        AppendStep::Rejected(key_reused_for_message())
                    } else {
                        AppendStep::Replayed(sub.acceptance)
                    },
                    None => if c.status != ConversationStatus::Active {
                        AppendStep::Rejected(conversation_archived())
                    } else if exists_in(s.turns, active_turn_of(conversation_id)) {
                        AppendStep::Rejected(turn_already_active())
                    } else {
                        AppendStep::Fresh(c, text)
                    },
                }
            },
        },
    }
}

pub open spec fn runtime_unavailable_error(cap: RuntimeCapability) -> ErrorV {
    err(
        ErrorCode::CapabilityMissing,
        match cap.reason {
            Some(r) => r@,
            None => "agent runtime is unavailable"@,
        },
    )
}

pub open spec fn events_url(conversation_id: ConversationId) -> Seq<char> {
    "/api/v1/agent/conversations/"@ + uuid_text(conversation_id.0) + "/events"@
}

/// The events a fresh submission appends, after `base` earlier ones.
pub open spec fn submission_events(added: Seq<EventV>, a: SubmitAcceptanceV, base: int, failed: bool) -> bool {
    &&& added.len() == if failed { 3int } else { 2int }
    &&& event_fits(
        added[0],
        a.conversation,
        base + 1,
        "message.created"@,
        Some(a.turn.id),
        Some(a.run.id),
        PayloadV::MessageCreated { message: a.message },
    )
    &&& event_fits(
        added[1],
        a.conversation,
        base + 2,
        "turn.accepted"@,
        Some(a.turn.id),
        Some(a.run.id),
        PayloadV::TurnAccepted { turn_id: a.turn.id, run_id: a.run.id },
    )
    &&& failed ==> (a.run.error matches Some(error) && event_fits(
        added[2],
        a.conversation,
        base + 3,
        "run.failed"@,
        Some(a.turn.id),
        Some(a.run.id),
        PayloadV::RunFailed { run_id: a.run.id, status: RunStatus::Failed, error },
    ))
}

/// What a fresh submission writes: the conversation's new revision, the user
/// message, a queued turn and run (failed at once when the runtime is not
/// available), their events, and the acceptance under its idempotency key.
pub open spec fn fresh_submission(
    old: AgentStoreV,
    new: AgentStoreV,
    c: Conversation,
    text: Seq<char>,
    attachments: Seq<crate::agent::AttachmentReference>,
    metadata: Seq<char>,
    key: Seq<char>,
    request_hash: Seq<char>,
    cap: RuntimeCapability,
    a: SubmitAcceptanceV,
) -> bool {
    let now = a.message.created_at;
    let failed = cap.status != crate::agent::RuntimeCapabilityStatus::Available;
    let status_turn = if failed { TurnStatus::Failed } else { TurnStatus::Queued };
    let status_run = if failed { RunStatus::Failed } else { RunStatus::Queued };
    let base = counter_of(old.event_counters, c.id) as int;
    let added = new.events.skip(old.events.len() as int);
    &&& a.conversation == Conversation { revision: (c.revision + 1) as u64, updated_at: now, ..c }
    &&& a.message == MessageV {
        id: a.message.id,
        conversation_id: c.id,
        operator_id: c.operator_id,
        tenant_id: c.tenant_id,
        project_id: c.project_id,
        turn_id: Some(a.turn.id),
        role: MessageRole::User,
        content: text,
        attachments,
        metadata,
        sequence: (counter_of(old.message_counters, c.id) + 1) as u64,
        created_at: now,
    }
    &&& is_latest_turn(old.turns, c.id, a.turn.previous_turn_id)
    &&& a.turn == Turn {
        id: a.turn.id,
        conversation_id: c.id,
        root_message_id: a.message.id,
        previous_turn_id: a.turn.previous_turn_id,
        run_id: Some(a.run.id),
        status: status_turn,
        cancel_version: 0,
        created_at: now,
        updated_at: now,
    }
    &&& a.run.conversation_id == c.id
    &&& a.run.turn_id == a.turn.id
    &&& a.run.operator_id == c.operator_id
    &&& a.run.tenant_id == c.tenant_id
    &&& a.run.project_id == c.project_id
    &&& a.run.status == status_run
    &&& a.run.capability == cap
    &&& (if failed {
        a.run.error matches Some(e) && e@ == runtime_unavailable_error(cap)
    } else {
        a.run.error is None
    })
    &&& a.run.cancel_version == 0
    &&& a.run.created_at == now
    &&& a.run.updated_at == now
    &&& a.events_url == events_url(c.id)
    &&& new.conversations == put(old.conversations, conversation_is(c.id), a.conversation)
    &&& new.messages == put(old.messages, message_is(a.message.id), a.message)
    &&& new.turns == put(old.turns, turn_is(a.turn.id), a.turn)
    &&& new.runs == put(old.runs, run_is(a.run.id), a.run)
    &&& new.message_counters == put(
        old.message_counters,
        counter_is(c.id),
        (c.id, (counter_of(old.message_counters, c.id) + 1) as u64),
    )
    &&& new.event_counters == put(
        old.event_counters,
        counter_is(c.id),
        (c.id, (base + added.len()) as u64),
    )
    &&& appends_events(old, new)
    &&& submission_events(added, a, base, failed)
    &&& new.submissions == put(
        old.submissions,
        submission_is(key, c.id),
        SubmissionV { idempotency_key_hash: key, conversation_id: c.id, request_hash, acceptance: a },
    )
    &&& new.checkpoints == old.checkpoints
    &&& new.tool_calls == old.tool_calls
}

/// Every submission a store holds is still held, unchanged, after a step:
/// an idempotency key once answered keeps its answer.
pub open spec fn submissions_kept(old: AgentStoreV, new: AgentStoreV) -> bool {
    forall|key: Seq<char>, id: ConversationId|
        #![trigger find(new.submissions, submission_is(key, id))]
        find(old.submissions, submission_is(key, id)) is Some ==> find(new.submissions, submission_is(key, id))
            == find(old.submissions, submission_is(key, id))
}

/// A submission keeps every submission the store held before it.
pub proof fn lemma_append_keeps_submissions(
    old: AgentStoreV,
    new: AgentStoreV,
    scope: TenantScope,
    conversation_id: ConversationId,
    content: Seq<char>,
    attachments: Seq<crate::agent::AttachmentReference>,
    metadata: Seq<char>,
    key: Seq<char>,
    request_hash: Seq<char>,
    cap: RuntimeCapability,
    r: Result<SubmitAcceptanceV, ErrorV>,
)
    requires
        old.wf(),
        append_outcome(old, new, scope, conversation_id, content, attachments, metadata, key, request_hash, cap, r),
    ensures
        submissions_kept(old, new),
{
    match append_step(old, scope, conversation_id, content, attachments, key, request_hash) {
        AppendStep::Fresh(c, text) => {
            let p = submission_is(key, c.id);
            let a = r->Ok_0;
            let x = SubmissionV { idempotency_key_hash: key, conversation_id: c.id, request_hash, acceptance: a };
            assert forall|k: Seq<char>, id: ConversationId|
                #![trigger find(new.submissions, submission_is(k, id))]
                find(old.submissions, submission_is(k, id)) is Some implies find(new.submissions, submission_is(k, id))
                    == find(old.submissions, submission_is(k, id)) by {
                let q = submission_is(k, id);
                lemma_unique_key_at_most_one(old.submissions, |y: SubmissionV| (y.idempotency_key_hash, y.conversation_id), q, (k, id));
                lemma_unique_key_at_most_one(old.submissions, |y: SubmissionV| (y.idempotency_key_hash, y.conversation_id), p, (key, c.id));
                if k == key && id == c.id {
                    assert(false);
                }
                assert forall|y: SubmissionV| !(#[trigger] p(y) && q(y)) by {}
                lemma_find_put_other(old.submissions, p, q, x);
            }
        },
        _ => {},
    }
}

/// Along steps that keep submissions, a held submission stays held.
pub proof fn lemma_submission_kept_along(states: Seq<AgentStoreV>, key: Seq<char>, id: ConversationId, from: int, to: int)
    requires
        0 <= from <= to < states.len(),
        forall|k: int| from <= k < to ==> submissions_kept(#[trigger] states[k], states[k + 1]),
        find(states[from].submissions, submission_is(key, id)) is Some,
    ensures
        find(states[to].submissions, submission_is(key, id)) == find(states[from].submissions, submission_is(key, id)),
    decreases to - from,
{
    if from < to {
        lemma_submission_kept_along(states, key, id, from, to - 1);
        assert(submissions_kept(states[to - 1], states[to]));
    }
}

/// Replaying a message: once a submission to a conversation was accepted
/// under an idempotency key, any later submission there with the same key
/// and request digest, after any steps that keep submissions (a run may have
/// finished, another turn may be active), is answered with the same
/// acceptance and changes nothing.
pub proof fn lemma_submission_replay_later(
    states: Seq<AgentStoreV>,
    scope: TenantScope,
    conversation_id: ConversationId,
    content: Seq<char>,
    attachments: Seq<crate::agent::AttachmentReference>,
    metadata: Seq<char>,
    key: Seq<char>,
    request_hash: Seq<char>,
    cap: RuntimeCapability,
    a: SubmitAcceptanceV,
    content2: Seq<char>,
    attachments2: Seq<crate::agent::AttachmentReference>,
    metadata2: Seq<char>,
    cap2: RuntimeCapability,
    new: AgentStoreV,
    r: Result<SubmitAcceptanceV, ErrorV>,
)
    requires
        states.len() >= 2,
        states[0].wf(),
        append_outcome(
            states[0],
            states[1],
            scope,
            conversation_id,
            content,
            attachments,
            metadata,
            key,
            request_hash,
            cap,
            Ok::<SubmitAcceptanceV, ErrorV>(a),
        ),
        forall|k: int| 1 <= k < states.len() - 1 ==> submissions_kept(#[trigger] states[k], states[k + 1]),
        append_message_rule(content2, attachments2) is Ok,
        find(states.last().conversations, conversation_is(conversation_id)) matches Some(c) && sees(scope, c),
        append_outcome(states.last(), new, scope, conversation_id, content2, attachments2, metadata2, key, request_hash, cap2, r),
    ensures
        r == Ok::<SubmitAcceptanceV, ErrorV>(a),
        new == states.last(),
{
    let p = submission_is(key, conversation_id);
    let stored = SubmissionV { idempotency_key_hash: key, conversation_id, request_hash, acceptance: a };
    match append_step(states[0], scope, conversation_id, content, attachments, key, request_hash) {
        AppendStep::Fresh(c, text) => {
            let pc = conversation_is(conversation_id);
            assert(pc(states[0].conversations[pick(states[0].conversations, pc)]));
            assert(c.id == conversation_id);
            lemma_unique_key_at_most_one(
                states[0].submissions,
                |y: SubmissionV| (y.idempotency_key_hash, y.conversation_id),
                p,
                (key, conversation_id),
            );
            lemma_find_put_same(states[0].submissions, p, stored);
            assert(find(states[1].submissions, p) == Some(stored));
        },
        AppendStep::Replayed(x) => {
            let sub = find(states[0].submissions, p)->0;
            assert(find(states[1].submissions, p) == Some(sub));
            assert(sub.request_hash == request_hash && sub.acceptance == a);
        },
        AppendStep::Rejected(e) => {},
    }
    let last = states.len() - 1;
    lemma_submission_kept_along(states, key, conversation_id, 1, last);
}

/// What a submission does to the store, and its answer.
pub open spec fn append_outcome(
    old: AgentStoreV,
    new: AgentStoreV,
    scope: TenantScope,
    conversation_id: ConversationId,
    content: Seq<char>,
    attachments: Seq<crate::agent::AttachmentReference>,
    metadata: Seq<char>,
    key: Seq<char>,
    request_hash: Seq<char>,
    cap: RuntimeCapability,
    r: Result<SubmitAcceptanceV, ErrorV>,
) -> bool {
    match append_step(old, scope, conversation_id, content, attachments, key, request_hash) {
        AppendStep::Rejected(e) => r == Err::<SubmitAcceptanceV, ErrorV>(e) && new == old,
        AppendStep::Replayed(a) => r == Ok::<SubmitAcceptanceV, ErrorV>(a) && new == old,
        AppendStep::Fresh(c, text) => match r {
            Ok(a) => fresh_submission(old, new, c, text, attachments, metadata, key, request_hash, cap, a),
            Err(_) => false,
        },
    }
}

pub open spec fn acceptance_result(r: Result<SubmitAcceptance, AppError>) -> Result<SubmitAcceptanceV, ErrorV> {
    match r {
        Ok(a) => Ok(a@),
        Err(e) => Err(e@),
    }
}


// ---------------------------------------------------------------------------
// The run lifecycle.
// ---------------------------------------------------------------------------

/// `new` is `old` with one more event, fitting the given shape, appended and
/// queued, and the conversation's event counter moved on.
pub open spec fn one_event(
    old: AgentStoreV,
    new: AgentStoreV,
    c: Conversation,
    event_type: Seq<char>,
    turn_id: Option<TurnId>,
    run_id: Option<RunId>,
    payload: PayloadV,
) -> bool {
    &&& new.events.len() == old.events.len() + 1
    &&& new.events.drop_last() == old.events
    &&& new.outbox == old.outbox.push(new.events.last())
    &&& event_fits(new.events.last(), c, counter_of(old.event_counters, c.id) + 1, event_type, turn_id, run_id, payload)
    &&& new.event_counters == put(
        old.event_counters,
        counter_is(c.id),
        (c.id, (counter_of(old.event_counters, c.id) + 1) as u64),
    )
}

/// Everything but runs, turns, conversations, messages and the event log is
/// as before.
pub open spec fn only_run_state_changed(old: AgentStoreV, new: AgentStoreV) -> bool {
    &&& new.submissions == old.submissions
    &&& new.checkpoints == old.checkpoints
    &&& new.tool_calls == old.tool_calls
}

/// What `begin_run` does: claims a queued, visible run once.
pub open spec fn begin_outcome(
    old: AgentStoreV,
    new: AgentStoreV,
    scope: TenantScope,
    run_id: RunId,
    r: Result<Option<Run>, ErrorV>,
) -> bool {
    match find(old.runs, run_is(run_id)) {
        None => r == Ok::<Option<Run>, ErrorV>(None) && new == old,
        Some(run) => if !sees_run(scope, run) || run.status != RunStatus::Queued {
            r == Ok::<Option<Run>, ErrorV>(None) && new == old
        } else {
            match find(old.conversations, conversation_is(run.conversation_id)) {
                None => r == Err::<Option<Run>, ErrorV>(conversation_not_found()) && new == old,
                Some(c) => match r {
                    Ok(Some(claimed)) => {
                        let now = claimed.updated_at;
                        let mid = AgentStoreV {
                            runs: put(old.runs, run_is(run_id), claimed),
                            turns: match find(old.turns, turn_is(run.turn_id)) {
                                Some(t) => if t.status == TurnStatus::Queued {
                                    put(old.turns, turn_is(t.id), Turn { status: TurnStatus::Running, updated_at: now, ..t })
                                } else {
                                    old.turns
                                },
                                None => old.turns,
                            },
                            ..old
                        };
                        &&& claimed == Run { status: RunStatus::Running, updated_at: now, ..run }
                        &&& new == AgentStoreV {
                            events: new.events,
                            outbox: new.outbox,
                            event_counters: new.event_counters,
                            ..mid
                        }
                        &&& one_event(
                            mid,
                            new,
                            c,
                            "run.running"@,
                            Some(run.turn_id),
                            Some(run_id),
                            PayloadV::RunRunning { run_id, status: RunStatus::Running },
                        )
                    },
                    _ => false,
                },
            }
        },
    }
}

/// What `cancel_turn` does: cancels a visible turn whose run is not yet
/// terminal, and answers a terminal run unchanged.
pub open spec fn cancel_outcome(
    old: AgentStoreV,
    new: AgentStoreV,
    scope: TenantScope,
    turn_id: TurnId,
    r: Result<Run, ErrorV>,
) -> bool {
    match find(old.turns, turn_is(turn_id)) {
        None => r == Err::<Run, ErrorV>(turn_not_found()) && new == old,
        Some(t) => match t.run_id {
            None => r == Err::<Run, ErrorV>(run_not_found()) && new == old,
            Some(rid) => match find(old.runs, run_is(rid)) {
                None => r == Err::<Run, ErrorV>(run_not_found()) && new == old,
                Some(run) => if !sees_run(scope, run) {
                    r == Err::<Run, ErrorV>(turn_not_found()) && new == old
                } else if run_terminal(run.status) {
                    r == Ok::<Run, ErrorV>(run) && new == old
                } else {
                    match find(old.conversations, conversation_is(t.conversation_id)) {
                        None => r == Err::<Run, ErrorV>(conversation_not_found()) && new == old,
                        Some(c) => match r {
                            Ok(cancelled) => {
                                let now = cancelled.updated_at;
                                let version = (t.cancel_version + 1) as u64;
                                let mid = AgentStoreV {
                                    turns: put(
                                        old.turns,
                                        turn_is(turn_id),
                                        Turn {
                                            status: TurnStatus::Cancelled,
                                            cancel_version: version,
                                            updated_at: now,
                                            ..t
                                        },
                                    ),
                                    runs: put(old.runs, run_is(rid), cancelled),
                                    ..old
                                };
                                &&& cancelled == Run {
                                    status: RunStatus::Cancelled,
                                    cancel_version: version,
                                    updated_at: now,
                                    ..run
                                }
                                &&& new == AgentStoreV {
                                    events: new.events,
                                    outbox: new.outbox,
                                    event_counters: new.event_counters,
                                    ..mid
                                }
                                &&& one_event(
                                    mid,
                                    new,
                                    c,
                                    "run.cancelled"@,
                                    Some(turn_id),
                                    Some(rid),
                                    PayloadV::RunCancelled { run_id: rid, cancel_version: version },
                                )
                            },
                            Err(_) => false,
                        },
                    }
                },
            },
        },
    }
}

/// The answer or the error a completion carries, once the answer is
/// validated.
pub enum Verdict {
    Answer(Seq<char>, Seq<char>),
    Failure(ErrorV),
}

pub open spec fn verdict_of(completion: RunCompletion) -> Verdict {
    match completion {
        RunCompletion::Succeeded { content, metadata } => match message_content_rule(content@) {
            Ok(t) => Verdict::Answer(t, metadata@),
            Err(e) => Verdict::Failure(e),
        },
        RunCompletion::Failed { error } => Verdict::Failure(error@),
    }
}

/// What `finish_run` does: a running, visible run becomes terminal with its
/// turn, the conversation moves to its next revision, and a success records
/// exactly one assistant message.  A run that is not running is left alone.
pub open spec fn finish_outcome(
    old: AgentStoreV,
    new: AgentStoreV,
    scope: TenantScope,
    run_id: RunId,
    completion: RunCompletion,
    r: Result<Option<RunTransition>, ErrorV>,
) -> bool {
    match find(old.runs, run_is(run_id)) {
        None => r == Ok::<Option<RunTransition>, ErrorV>(None) && new == old,
        Some(run) => if !sees_run(scope, run) || run.status != RunStatus::Running {
            r == Ok::<Option<RunTransition>, ErrorV>(None) && new == old
        } else {
            match find(old.conversations, conversation_is(run.conversation_id)) {
                None => r == Err::<Option<RunTransition>, ErrorV>(conversation_not_found()) && new == old,
                Some(c) => match find(old.turns, turn_is(run.turn_id)) {
                    None => r == Err::<Option<RunTransition>, ErrorV>(turn_not_found()) && new == old,
                    Some(t) => match r {
                        Ok(Some(tr)) => {
                            let now = tr.run.updated_at;
                            let c2 = Conversation { revision: (c.revision + 1) as u64, updated_at: now, ..c };
                            let base = counter_of(old.event_counters, c.id) as int;
                            let added = new.events.skip(old.events.len() as int);
                            &&& only_run_state_changed(old, new)
                            &&& new.conversations == put(old.conversations, conversation_is(c.id), c2)
                            &&& new.runs == put(old.runs, run_is(run_id), tr.run)
                            &&& new.turns == put(old.turns, turn_is(t.id), tr.turn)
                            &&& appends_events(old, new)
                            &&& new.event_counters == put(
                                old.event_counters,
                                counter_is(c.id),
                                (c.id, (base + added.len()) as u64),
                            )
                            &&& match verdict_of(completion) {
                                Verdict::Answer(text, metadata) => {
                                    &&& tr.run == Run { status: RunStatus::Succeeded, error: None, updated_at: now, ..run }
                                    &&& tr.turn == Turn { status: TurnStatus::Succeeded, updated_at: now, ..t }
                                    &&& tr.message matches Some(m) && m@ == MessageV {
                                        id: m.id,
                                        conversation_id: c.id,
                                        operator_id: c.operator_id,
                                        tenant_id: c.tenant_id,
                                        project_id: c.project_id,
                                        turn_id: Some(run.turn_id),
                                        role: MessageRole::Assistant,
                                        content: text,
                                        attachments: Seq::empty(),
                                        metadata,
                                        sequence: (counter_of(old.message_counters, c.id) + 1) as u64,
                                        created_at: now,
                                    } && new.messages == put(old.messages, message_is(m.id), m@)
                                    &&& new.message_counters == put(
                                        old.message_counters,
                                        counter_is(c.id),
                                        (c.id, (counter_of(old.message_counters, c.id) + 1) as u64),
                                    )
                                    &&& added.len() == 2
                                    &&& tr.message matches Some(m) && event_fits(
                                        added[0],
                                        c2,
                                        base + 1,
                                        "message.created"@,
                                        Some(t.id),
                                        Some(run_id),
                                        PayloadV::MessageCreated { message: m@ },
                                    )
                                    &&& event_fits(
                                        added[1],
                                        c2,
                                        base + 2,
                                        "run.succeeded"@,
                                        Some(t.id),
                                        Some(run_id),
                                        PayloadV::RunSucceeded { run_id, status: RunStatus::Succeeded },
                                    )
                                },
                                Verdict::Failure(e) => {
                                    &&& tr.run.status == RunStatus::Failed
                                    &&& tr.run.error matches Some(error) && error@ == e && tr.run == Run {
                                        status: RunStatus::Failed,
                                        error: Some(error),
                                        updated_at: now,
                                        ..run
                                    } && event_fits(
                                        added[0],
                                        c2,
                                        base + 1,
                                        "run.failed"@,
                                        Some(t.id),
                                        Some(run_id),
                                        PayloadV::RunFailed { run_id, status: RunStatus::Failed, error },
                                    )
                                    &&& tr.turn == Turn { status: TurnStatus::Failed, updated_at: now, ..t }
                                    &&& tr.message is None
                                    &&& new.messages == old.messages
                                    &&& new.message_counters == old.message_counters
                                    &&& added.len() == 1
                                },
                            }
                        },
                        _ => false,
                    },
                },
            }
        },
    }
}


// ---------------------------------------------------------------------------
// Listings.
// ---------------------------------------------------------------------------

/// Conversations are listed most recently updated first, then by id.
pub open spec fn conversation_rank() -> spec_fn(Conversation) -> (i128, u128) {
    |c: Conversation| ((-(c.updated_at as int)) as i128, c.id.0)
}

pub open spec fn seen_by(scope: TenantScope) -> spec_fn(Conversation) -> bool {
    |c: Conversation| sees(scope, c)
}

pub open spec fn message_of(id: ConversationId) -> spec_fn(MessageV) -> bool {
    |m: MessageV| m.conversation_id == id
}

/// Messages are listed by sequence number.
pub open spec fn message_rank() -> spec_fn(MessageV) -> (i128, u128) {
    |m: MessageV| (m.sequence as i128, 0u128)
}

/// Turns are listed by creation.
pub open spec fn turn_rank() -> spec_fn(Turn) -> (i128, u128) {
    |t: Turn| (t.created_at as i128, 0u128)
}

pub open spec fn run_of(id: ConversationId) -> spec_fn(Run) -> bool {
    |r: Run| r.conversation_id == id
}

/// Runs are listed by creation.
pub open spec fn run_rank() -> spec_fn(Run) -> (i128, u128) {
    |r: Run| (r.created_at as i128, 0u128)
}

pub open spec fn entry_of(run_id: RunId) -> spec_fn(ToolCallLedgerEntry) -> bool {
    |e: ToolCallLedgerEntry| e.run_id == run_id
}

/// Ledger entries are listed by creation, then by id.
pub open spec fn entry_rank() -> spec_fn(ToolCallLedgerEntry) -> (i128, u128) {
    |e: ToolCallLedgerEntry| (e.created_at as i128, e.id.0)
}

/// No entry occurs twice.
pub open spec fn no_repeats<T>(r: Seq<T>) -> bool {
    forall|i: int, j: int| 0 <= i < r.len() && 0 <= j < r.len() && #[trigger] r[i] == #[trigger] r[j] ==> i == j
}

/// The events of conversation `id` after sequence number `after`, in order.
pub open spec fn events_after(es: Seq<EventV>, id: ConversationId, after: u64) -> Seq<EventV>
    decreases es.len(),
{
    if es.len() == 0 {
        es
    } else {
        let rest = events_after(es.drop_last(), id, after);
        if es.last().conversation_id == id && es.last().sequence > after {
            rest.push(es.last())
        } else {
            rest
        }
    }
}


// ---------------------------------------------------------------------------
// Checkpoints and the tool-call ledger.
// ---------------------------------------------------------------------------

/// The run `run_id` when `scope` sees it.
pub open spec fn visible_run(s: AgentStoreV, scope: TenantScope, run_id: RunId) -> Option<Run> {
    match find(s.runs, run_is(run_id)) {
        Some(r) => if sees_run(scope, r) {
            Some(r)
        } else {
            None
        },
        None => None,
    }
}

pub open spec fn checkpoint_conflict() -> ErrorV {
    err(ErrorCode::Conflict, "checkpoint was already stored for a different input"@)
}

pub open spec fn tool_call_conflict() -> ErrorV {
    err(ErrorCode::Conflict, "tool call was already recorded with different arguments"@)
}

/// What storing a checkpoint does: a new step gets version 1, a repeated
/// step with the same input digest gets the next version, and a changed
/// digest is a conflict.
pub open spec fn checkpoint_outcome(
    old: AgentStoreV,
    new: AgentStoreV,
    scope: TenantScope,
    run_id: RunId,
    cp: StoreCheckpoint,
    r: Result<AgentCheckpoint, ErrorV>,
) -> bool {
    match checkpoint_write_rule(cp) {
        Err(e) => r == Err::<AgentCheckpoint, ErrorV>(e) && new == old,
        Ok(()) => match visible_run(old, scope, run_id) {
            None => r == Err::<AgentCheckpoint, ErrorV>(run_not_found()) && new == old,
            Some(run) => {
                let p = checkpoint_is(run.id, cp.checkpoint_scope@, cp.step_key@);
                match find(old.checkpoints, p) {
                    Some(existing) => if existing.input_hash@ != cp.input_hash@ {
                        r == Err::<AgentCheckpoint, ErrorV>(checkpoint_conflict()) && new == old
                    } else {
                        r matches Ok(stored) && stored == AgentCheckpoint {
                            result_ref: cp.result_ref,
                            state: cp.state,
                            version: (existing.version + 1) as u64,
                            updated_at: stored.updated_at,
                            ..existing
                        } && new == AgentStoreV { checkpoints: put(old.checkpoints, p, stored), ..old }
                    },
                    None => r matches Ok(stored) && stored == AgentCheckpoint {
                        id: stored.id,
                        run_id: run.id,
                        conversation_id: run.conversation_id,
                        operator_id: run.operator_id,
                        tenant_id: run.tenant_id,
                        project_id: run.project_id,
                        checkpoint_scope: cp.checkpoint_scope,
                        step_key: cp.step_key,
                        input_hash: cp.input_hash,
                        result_ref: cp.result_ref,
                        version: 1,
                        state: cp.state,
                        created_at: stored.created_at,
                        updated_at: stored.created_at,
                    } && new == AgentStoreV { checkpoints: put(old.checkpoints, p, stored), ..old },
                }
            },
        },
    }
}

/// What appending to the ledger does: a new tool call is recorded once; the
/// same call with the same digests is answered with the stored entry; other
/// digests are a conflict.
pub open spec fn tool_call_outcome(
    old: AgentStoreV,
    new: AgentStoreV,
    scope: TenantScope,
    input: RecordToolCall,
    r: Result<ToolCallLedgerEntry, ErrorV>,
) -> bool {
    match tool_call_write_rule(input) {
        Err(e) => r == Err::<ToolCallLedgerEntry, ErrorV>(e) && new == old,
        Ok(()) => match visible_run(old, scope, input.run_id) {
            None => r == Err::<ToolCallLedgerEntry, ErrorV>(run_not_found()) && new == old,
            Some(run) => {
                let p = tool_call_is(run.id, input.tool_call_id@);
                match find(old.tool_calls, p) {
                    Some(existing) => if existing.arguments_hash@ != input.arguments_hash@
                        || existing.idempotency_key_hash@ != input.idempotency_key_hash@ {
                        r == Err::<ToolCallLedgerEntry, ErrorV>(tool_call_conflict()) && new == old
                    } else {
                        r == Ok::<ToolCallLedgerEntry, ErrorV>(existing) && new == old
                    },
                    None => r matches Ok(entry) && entry == ToolCallLedgerEntry {
                        id: entry.id,
                        run_id: run.id,
                        turn_id: run.turn_id,
                        conversation_id: run.conversation_id,
                        operator_id: run.operator_id,
                        tenant_id: run.tenant_id,
                        project_id: run.project_id,
                        tool_call_id: input.tool_call_id,
                        tool_name: input.tool_name,
                        arguments_hash: input.arguments_hash,
                        idempotency_key_hash: input.idempotency_key_hash,
                        permission: input.permission,
                        budget: input.budget,
                        intent: input.intent,
                        attempt_count: input.attempt_count,
                        result_ref: input.result_ref,
                        outcome: input.outcome,
                        cost_minor: input.cost_minor,
                        currency: input.currency,
                        created_at: entry.created_at,
                        updated_at: entry.created_at,
                    } && new == AgentStoreV { tool_calls: put(old.tool_calls, p, entry), ..old },
                }
            },
        },
    }
}


// ---------------------------------------------------------------------------
// Laws.
// ---------------------------------------------------------------------------

/// Repeating an accepted submission with the same idempotency key and
/// request hash answers the stored acceptance and writes nothing.
pub proof fn lemma_submission_replay(
    s1: AgentStoreV,
    s2: AgentStoreV,
    s3: AgentStoreV,
    scope: TenantScope,
    conversation_id: ConversationId,
    content: Seq<char>,
    attachments: Seq<crate::agent::AttachmentReference>,
    metadata: Seq<char>,
    key: Seq<char>,
    request_hash: Seq<char>,
    cap1: RuntimeCapability,
    cap2: RuntimeCapability,
    a: SubmitAcceptanceV,
    r: Result<SubmitAcceptanceV, ErrorV>,
)
    requires
        s1.wf(),
        append_outcome(
            s1,
            s2,
            scope,
            conversation_id,
            content,
            attachments,
            metadata,
            key,
            request_hash,
            cap1,
            Ok::<SubmitAcceptanceV, ErrorV>(a),
        ),
        append_outcome(s2, s3, scope, conversation_id, content, attachments, metadata, key, request_hash, cap2, r),
    ensures
        r == Ok::<SubmitAcceptanceV, ErrorV>(a),
        s3 == s2,
{
    match append_step(s1, scope, conversation_id, content, attachments, key, request_hash) {
        AppendStep::Fresh(c, text) => {
            let conv2 = a.conversation;
            lemma_unique_key_at_most_one(s1.conversations, |x: Conversation| x.id, conversation_is(c.id), c.id);
            let pc = conversation_is(conversation_id);
            assert(pc(s1.conversations[pick(s1.conversations, pc)]));
            lemma_find_put_same(s1.conversations, conversation_is(c.id), conv2);
            let ps = submission_is(key, c.id);
            lemma_unique_key_at_most_one(
                s1.submissions,
                |x: SubmissionV| (x.idempotency_key_hash, x.conversation_id),
                ps,
                (key, c.id),
            );
            lemma_find_put_same(
                s1.submissions,
                ps,
                SubmissionV { idempotency_key_hash: key, conversation_id: c.id, request_hash, acceptance: a },
            );
        },
        _ => {},
    }
}

/// Once a run has been claimed, claiming it again finds nothing to claim.
pub proof fn lemma_run_claimed_once(
    s1: AgentStoreV,
    s2: AgentStoreV,
    s3: AgentStoreV,
    scope: TenantScope,
    run_id: RunId,
    claimed: Run,
    r: Result<Option<Run>, ErrorV>,
)
    requires
        s1.wf(),
        begin_outcome(s1, s2, scope, run_id, Ok::<Option<Run>, ErrorV>(Some(claimed))),
        begin_outcome(s2, s3, scope, run_id, r),
    ensures
        r == Ok::<Option<Run>, ErrorV>(None),
        s3 == s2,
{
    let p = run_is(run_id);
    assert(p(s1.runs[pick(s1.runs, p)]));
    lemma_unique_key_at_most_one(s1.runs, |x: Run| x.id, p, run_id);
    lemma_find_put_same(s1.runs, p, claimed);
}

/// A cancelled turn's run cannot be completed afterwards: a late completion
/// is answered with `None` and writes nothing.
pub proof fn lemma_cancellation_outranks_completion(
    s1: AgentStoreV,
    s2: AgentStoreV,
    s3: AgentStoreV,
    scope: TenantScope,
    turn_id: TurnId,
    run: Run,
    completion: RunCompletion,
    r: Result<Option<RunTransition>, ErrorV>,
)
    requires
        s1.wf(),
        cancel_outcome(s1, s2, scope, turn_id, Ok::<Run, ErrorV>(run)),
        finish_outcome(s2, s3, scope, run.id, completion, r),
    ensures
        r == Ok::<Option<RunTransition>, ErrorV>(None),
        s3 == s2,
{
    let pt = turn_is(turn_id);
    assert(pt(s1.turns[pick(s1.turns, pt)]));
    let t = s1.turns[pick(s1.turns, pt)];
    let rid = t.run_id->0;
    let p = run_is(rid);
    assert(p(s1.runs[pick(s1.runs, p)]));
    lemma_unique_key_at_most_one(s1.runs, |x: Run| x.id, p, rid);
    if !run_terminal(s1.runs[pick(s1.runs, p)].status) {
        lemma_find_put_same(s1.runs, p, run);
    }
}

/// Repeating a recorded tool call with the same digests answers the stored
/// entry and writes nothing.
pub proof fn lemma_tool_call_replay(
    s1: AgentStoreV,
    s2: AgentStoreV,
    s3: AgentStoreV,
    scope: TenantScope,
    input: RecordToolCall,
    again: RecordToolCall,
    entry: ToolCallLedgerEntry,
    r: Result<ToolCallLedgerEntry, ErrorV>,
)
    requires
        s1.wf(),
        tool_call_outcome(s1, s2, scope, input, Ok::<ToolCallLedgerEntry, ErrorV>(entry)),
        again == input,
        tool_call_outcome(s2, s3, scope, again, r),
    ensures
        r == Ok::<ToolCallLedgerEntry, ErrorV>(entry),
        s3 == s2,
{
    let pr = run_is(input.run_id);
    if exists_in(s1.runs, pr) {
        assert(pr(s1.runs[pick(s1.runs, pr)]));
        let run = s1.runs[pick(s1.runs, pr)];
        let p = tool_call_is(run.id, input.tool_call_id@);
        lemma_unique_key_at_most_one(
            s1.tool_calls,
            |e: ToolCallLedgerEntry| (e.run_id, e.tool_call_id@),
            p,
            (run.id, input.tool_call_id@),
        );
        if exists_in(s1.tool_calls, p) {
            assert(p(s1.tool_calls[pick(s1.tool_calls, p)]));
        } else {
            lemma_find_put_same(s1.tool_calls, p, entry);
        }
    }
}

/// A replay gives the conversation's events after the cursor in strictly
/// increasing sequence order, each one an event the store holds.
pub proof fn lemma_replay_ordered(es: Seq<EventV>, counters: Seq<(ConversationId, u64)>, id: ConversationId, after: u64)
    requires
        events_ordered(es, counters),
    ensures
        forall|i: int, j: int|
            0 <= i < j < events_after(es, id, after).len() ==> (#[trigger] events_after(es, id, after)[i]).sequence
                < (#[trigger] events_after(es, id, after)[j]).sequence,
        forall|i: int|
            0 <= i < events_after(es, id, after).len() ==> (#[trigger] events_after(es, id, after)[i]).conversation_id == id
                && events_after(es, id, after)[i].sequence > after,
        forall|i: int|
            0 <= i < events_after(es, id, after).len() ==> exists|m: int|
                0 <= m < es.len() && es[m] == #[trigger] events_after(es, id, after)[i],
    decreases es.len(),
{
    if es.len() > 0 {
        let init = es.drop_last();
        assert(events_ordered(init, counters)) by {
            assert forall|i: int, j: int|
                0 <= i < j < init.len() && (#[trigger] init[i]).conversation_id == (#[trigger] init[j]).conversation_id implies init[i].sequence
                < init[j].sequence by {
                assert(init[i] == es[i] && init[j] == es[j]);
            }
            assert forall|i: int| 0 <= i < init.len() implies (#[trigger] init[i]).sequence <= counter_of(
                counters,
                init[i].conversation_id,
            ) by {
                assert(init[i] == es[i]);
            }
        }
        lemma_replay_ordered(init, counters, id, after);
        let rest = events_after(init, id, after);
        let last = es.last();
        if last.conversation_id == id && last.sequence > after {
            let r = rest.push(last);
            assert(events_after(es, id, after) == r);
            assert forall|i: int| 0 <= i < r.len() implies exists|m: int| 0 <= m < es.len() && es[m] == #[trigger] r[i] by {
                if i < rest.len() {
                    let m = choose|m: int| 0 <= m < init.len() && init[m] == rest[i];
                    assert(es[m] == r[i]);
                } else {
                    assert(es[es.len() - 1] == r[i]);
                }
            }
            assert forall|i: int, j: int| 0 <= i < j < r.len() implies (#[trigger] r[i]).sequence < (#[trigger] r[j]).sequence by {
                if j == rest.len() {
                    assert(rest[i] == r[i]);
                    let m = choose|m: int| 0 <= m < init.len() && init[m] == rest[i];
                    assert(es[m] == rest[i]);
                    assert(es[m].conversation_id == es[es.len() - 1].conversation_id);
                } else {
                    assert(rest[i] == r[i] && rest[j] == r[j]);
                }
            }
        } else {
            assert(events_after(es, id, after) == rest);
            assert forall|i: int| 0 <= i < rest.len() implies exists|m: int| 0 <= m < es.len() && es[m] == #[trigger] rest[i] by {
                let m = choose|m: int| 0 <= m < init.len() && init[m] == rest[i];
                assert(es[m] == rest[i]);
            }
        }
    }
}

/// A created conversation is found under its id, and by the scope that
/// created it.
pub proof fn lemma_created_conversation_found(
    s: AgentStoreV,
    conversations: Seq<Conversation>,
    scope: TenantScope,
    c: Conversation,
)
    requires
        s.wf(),
        scope.project_id == Some(c.project_id),
        c.operator_id == scope.operator_id,
        c.tenant_id == scope.tenant_id,
        conversations == put(s.conversations, conversation_is(c.id), c),
    ensures
        find(conversations, conversation_is(c.id)) == Some(c),
        sees(scope, c),
{
    let p = conversation_is(c.id);
    lemma_unique_key_at_most_one(s.conversations, |x: Conversation| x.id, p, c.id);
    lemma_find_put_same(s.conversations, p, c);
}

/// A stored checkpoint is what a later load of its step gives back, and the
/// run stays visible to load it.
pub proof fn lemma_stored_checkpoint_loads(
    s1: AgentStoreV,
    s2: AgentStoreV,
    scope: TenantScope,
    run_id: RunId,
    cp: StoreCheckpoint,
    stored: AgentCheckpoint,
)
    requires
        s1.wf(),
        checkpoint_outcome(s1, s2, scope, run_id, cp, Ok::<AgentCheckpoint, ErrorV>(stored)),
    ensures
        visible_run(s2, scope, run_id) is Some,
        find(s2.checkpoints, checkpoint_is(run_id, cp.checkpoint_scope@, cp.step_key@)) == Some(stored),
{
    let pr = run_is(run_id);
    assert(exists_in(s1.runs, pr));
    assert(pr(s1.runs[pick(s1.runs, pr)]));
    let run = s1.runs[pick(s1.runs, pr)];
    assert(run.id == run_id);
    let p = checkpoint_is(run.id, cp.checkpoint_scope@, cp.step_key@);
    lemma_unique_key_at_most_one(
        s1.checkpoints,
        |c: AgentCheckpoint| (c.run_id, c.checkpoint_scope@, c.step_key@),
        p,
        (run.id, cp.checkpoint_scope@, cp.step_key@),
    );
    if exists_in(s1.checkpoints, p) {
        assert(p(s1.checkpoints[pick(s1.checkpoints, p)]));
    }
    assert(p(stored));
    lemma_find_put_same(s1.checkpoints, p, stored);
}

// ---------------------------------------------------------------------------
// The store.
// ---------------------------------------------------------------------------

/// An accepted submission, remembered under its idempotency key.
#[derive(Debug)]
pub struct Submission {
    pub idempotency_key_hash: String,
    pub conversation_id: ConversationId,
    pub request_hash: String,
    pub acceptance: SubmitAcceptance,
}

pub struct SubmissionV {
    pub idempotency_key_hash: Seq<char>,
    pub conversation_id: ConversationId,
    pub request_hash: Seq<char>,
    pub acceptance: SubmitAcceptanceV,
}

impl View for Submission {
    type V = SubmissionV;

    open spec fn view(&self) -> SubmissionV {
        SubmissionV {
            idempotency_key_hash: self.idempotency_key_hash@,
            conversation_id: self.conversation_id,
            request_hash: self.request_hash@,
            acceptance: self.acceptance@,
        }
    }
}

#[derive(Debug)]
pub struct MemoryAgentRepository {
    conversations: Vec<Conversation>,
    messages: Vec<Message>,
    turns: Vec<Turn>,
    runs: Vec<Run>,
    events: Vec<ConversationEvent>,
    message_counters: Vec<(ConversationId, u64)>,
    event_counters: Vec<(ConversationId, u64)>,
    submissions: Vec<Submission>,
    checkpoints: Vec<AgentCheckpoint>,
    tool_calls: Vec<ToolCallLedgerEntry>,
    outbox: Vec<ConversationEvent>,
}

pub struct AgentStoreV {
    pub conversations: Seq<Conversation>,
    pub messages: Seq<MessageV>,
    pub turns: Seq<Turn>,
    pub runs: Seq<Run>,
    pub events: Seq<EventV>,
    pub message_counters: Seq<(ConversationId, u64)>,
    pub event_counters: Seq<(ConversationId, u64)>,
    pub submissions: Seq<SubmissionV>,
    pub checkpoints: Seq<AgentCheckpoint>,
    pub tool_calls: Seq<ToolCallLedgerEntry>,
    /// Events appended to the log and not yet handed out for delivery.
    pub outbox: Seq<EventV>,
}

pub open spec fn message_views(v: Seq<Message>) -> Seq<MessageV> {
    v.map_values(|m: Message| m@)
}

/// How many stored messages belong to conversation `id`.
pub open spec fn message_count(ms: Seq<MessageV>, id: ConversationId) -> nat
    decreases ms.len(),
{
    if ms.len() == 0 {
        0
    } else {
        message_count(ms.drop_last(), id) + if ms.last().conversation_id == id {
            1nat
        } else {
            0nat
        }
    }
}

/// Each conversation's message counter is the number of its stored
/// messages, so the next message's sequence is that number plus one.
pub open spec fn messages_counted(counters: Seq<(ConversationId, u64)>, ms: Seq<MessageV>) -> bool {
    forall|id: ConversationId| #[trigger] counter_of(counters, id) == message_count(ms, id)
}

/// In a well-formed store a conversation's counter is its number of stored
/// messages, so a submission's message (sequence counter + 1) is numbered
/// one past the messages already there.
pub proof fn lemma_counter_is_message_count(s: AgentStoreV, id: ConversationId)
    requires
        s.wf(),
    ensures
        counter_of(s.message_counters, id) == message_count(s.messages, id),
{
}

/// After a conversation's counter is bumped and its new message stored,
/// every counter again matches its stored messages.
pub proof fn lemma_counted_after_bump(
    cs: Seq<(ConversationId, u64)>,
    cs2: Seq<(ConversationId, u64)>,
    ms: Seq<MessageV>,
    m: MessageV,
)
    requires
        messages_counted(cs, ms),
        counter_of(cs2, m.conversation_id) == counter_of(cs, m.conversation_id) + 1,
        forall|other: ConversationId| other != m.conversation_id ==> counter_of(cs2, other) == counter_of(cs, other),
    ensures
        messages_counted(cs2, ms.push(m)),
{
    assert forall|id: ConversationId| #[trigger] counter_of(cs2, id) == message_count(ms.push(m), id) by {
        lemma_message_count_push(ms, m, id);
        assert(counter_of(cs, id) == message_count(ms, id));
    }
}

pub proof fn lemma_message_count_push(ms: Seq<MessageV>, m: MessageV, id: ConversationId)
    ensures
        message_count(ms.push(m), id) == message_count(ms, id) + if m.conversation_id == id {
            1nat
        } else {
            0nat
        },
{
    assert(ms.push(m).drop_last() =~= ms);
}

/// A stored message count never exceeds the number of stored messages.
pub proof fn lemma_message_count_bound(ms: Seq<MessageV>, id: ConversationId)
    ensures
        message_count(ms, id) <= ms.len(),
    decreases ms.len(),
{
    if ms.len() > 0 {
        lemma_message_count_bound(ms.drop_last(), id);
    }
}

pub open spec fn event_views(v: Seq<ConversationEvent>) -> Seq<EventV> {
    v.map_values(|e: ConversationEvent| e@)
}

pub open spec fn submission_views(v: Seq<Submission>) -> Seq<SubmissionV> {
    v.map_values(|s: Submission| s@)
}

impl View for MemoryAgentRepository {
    type V = AgentStoreV;

    closed spec fn view(&self) -> AgentStoreV {
        AgentStoreV {
            conversations: self.conversations@,
            messages: message_views(self.messages@),
            turns: self.turns@,
            runs: self.runs@,
            events: event_views(self.events@),
            message_counters: self.message_counters@,
            event_counters: self.event_counters@,
            submissions: submission_views(self.submissions@),
            checkpoints: self.checkpoints@,
            tool_calls: self.tool_calls@,
            outbox: event_views(self.outbox@),
        }
    }
}

/// The keys of `s` under `key` are pairwise distinct.
pub open spec fn keys_unique<T, K>(s: Seq<T>, key: spec_fn(T) -> K) -> bool {
    forall|i: int, j: int| 0 <= i < s.len() && 0 <= j < s.len() && key(#[trigger] s[i]) == key(#[trigger] s[j]) ==> i == j
}

/// The events of each conversation carry strictly increasing sequence
/// numbers, none above that conversation's event counter.
pub open spec fn events_ordered(es: Seq<EventV>, counters: Seq<(ConversationId, u64)>) -> bool {
    &&& forall|i: int, j: int|
        0 <= i < j < es.len() && (#[trigger] es[i]).conversation_id == (#[trigger] es[j]).conversation_id ==> es[i].sequence
            < es[j].sequence
    &&& forall|i: int| 0 <= i < es.len() ==> (#[trigger] es[i]).sequence <= counter_of(counters, es[i].conversation_id)
}

impl AgentStoreV {
    pub open spec fn wf(self) -> bool {
        &&& self.wf_but_messages()
        &&& messages_counted(self.message_counters, self.messages)
    }

    /// Well-formedness apart from the link between message counters and
    /// stored messages, which a submission restores one step later.
    pub open spec fn wf_but_messages(self) -> bool {
        &&& keys_unique(self.conversations, |c: Conversation| c.id)
        &&& keys_unique(self.messages, |m: MessageV| m.id)
        &&& keys_unique(self.turns, |t: Turn| t.id)
        &&& keys_unique(self.runs, |r: Run| r.id)
        &&& keys_unique(self.message_counters, |c: (ConversationId, u64)| c.0)
        &&& keys_unique(self.event_counters, |c: (ConversationId, u64)| c.0)
        &&& keys_unique(self.submissions, |s: SubmissionV| (s.idempotency_key_hash, s.conversation_id))
        &&& keys_unique(self.checkpoints, |c: AgentCheckpoint| (c.run_id, c.checkpoint_scope@, c.step_key@))
        &&& keys_unique(self.tool_calls, |e: ToolCallLedgerEntry| (e.run_id, e.tool_call_id@))
        &&& events_ordered(self.events, self.event_counters)
        &&& self.linked()
    }

    /// Every turn belongs to a stored conversation, and every run to a
    /// stored turn and conversation.
    pub open spec fn linked(self) -> bool {
        &&& forall|i: int| 0 <= i < self.turns.len() ==> has_conversation(self.conversations, #[trigger] self.turns[i].conversation_id)
        &&& forall|i: int|
            0 <= i < self.runs.len() ==> has_turn(self.turns, #[trigger] self.runs[i].turn_id) && has_conversation(
                self.conversations,
                self.runs[i].conversation_id,
            )
    }

    /// Counters and versions are far from their limit.
    pub open spec fn has_room(self) -> bool {
        &&& forall|i: int| 0 <= i < self.message_counters.len() ==> #[trigger] self.message_counters[i].1 < 0x1000_0000_0000_0000
        &&& forall|i: int| 0 <= i < self.event_counters.len() ==> #[trigger] self.event_counters[i].1 < 0x1000_0000_0000_0000
        &&& forall|i: int| 0 <= i < self.conversations.len() ==> #[trigger] self.conversations[i].revision < 0x1000_0000_0000_0000
        &&& forall|i: int| 0 <= i < self.turns.len() ==> #[trigger] self.turns[i].cancel_version < 0x1000_0000_0000_0000
        &&& forall|i: int| 0 <= i < self.checkpoints.len() ==> #[trigger] self.checkpoints[i].version < 0x1000_0000_0000_0000
    }
}

/// What a scope sees of a record owned by operator, tenant and project.
pub open spec fn sees(scope: TenantScope, c: Conversation) -> bool {
    scope_contains(scope, owner_scope(c.operator_id, c.tenant_id, c.project_id))
}

pub open spec fn sees_run(scope: TenantScope, r: Run) -> bool {
    scope_contains(scope, owner_scope(r.operator_id, r.tenant_id, r.project_id))
}

/// `new` keeps every event of `old` and queues exactly the appended ones.
pub open spec fn appends_events(old: AgentStoreV, new: AgentStoreV) -> bool {
    &&& old.events.len() <= new.events.len()
    &&& new.events.take(old.events.len() as int) == old.events
    &&& new.outbox == old.outbox + new.events.skip(old.events.len() as int)
}

/// An event of conversation `c` with the given sequence, type, turn, run and
/// payload (its id and instant are fresh).
pub open spec fn event_fits(
    e: EventV,
    c: Conversation,
    sequence: int,
    event_type: Seq<char>,
    turn_id: Option<TurnId>,
    run_id: Option<RunId>,
    payload: PayloadV,
) -> bool {
    &&& e.conversation_id == c.id
    &&& e.operator_id == c.operator_id
    &&& e.tenant_id == c.tenant_id
    &&& e.project_id == c.project_id
    &&& e.sequence == sequence
    &&& e.event_type == event_type
    &&& e.turn_id == turn_id
    &&& e.run_id == run_id
    &&& e.payload == payload
}

pub open spec fn result_view<T>(r: Result<T, AppError>) -> Result<T, ErrorV> {
    match r {
        Ok(v) => Ok(v),
        Err(e) => Err(e@),
    }
}

pub open spec fn conversation_not_found() -> ErrorV {
    err(ErrorCode::NotFound, "conversation not found"@)
}

pub open spec fn run_not_found() -> ErrorV {
    err(ErrorCode::NotFound, "run not found"@)
}

pub open spec fn turn_not_found() -> ErrorV {
    err(ErrorCode::NotFound, "turn not found"@)
}

/// A title: trimmed, blank meaning none, at most 200 characters.
pub open spec fn title_rule(title: Option<Seq<char>>) -> Result<Option<Seq<char>>, ErrorV> {
    match title {
        None => Ok(None),
        Some(t) => if trimmed(t).len() == 0 {
            Ok(None)
        } else if trimmed(t).len() > 200 {
            Err(invalid("conversation title must be at most 200 characters"@))
        } else {
            Ok(Some(trimmed(t)))
        },
    }
}


fn counter_position(cs: &Vec<(ConversationId, u64)>, id: ConversationId) -> (r: Option<usize>)
    ensures
        match r {
            Some(k) => k < cs@.len() && cs@[k as int].0 == id,
            None => forall|k: int| 0 <= k < cs@.len() ==> (#[trigger] cs@[k]).0 != id,
        },
{
    let mut i: usize = 0;
    while i < cs.len()
        invariant
            i <= cs.len(),
            forall|k: int| 0 <= k < i ==> (#[trigger] cs@[k]).0 != id,
        decreases cs.len() - i,
    {
        if cs[i].0 == id {
            return Some(i);
        }
        i += 1;
    }
    None
}

/// Increments the counter of `id` (starting from zero) and returns its new
/// value.
fn bump_counter(cs: &mut Vec<(ConversationId, u64)>, id: ConversationId) -> (n: u64)
    requires
        keys_unique(old(cs)@, |c: (ConversationId, u64)| c.0),
        counter_of(old(cs)@, id) < u64::MAX,
    ensures
        n == counter_of(old(cs)@, id) + 1,
        final(cs)@ == put(old(cs)@, counter_is(id), (id, n)),
        keys_unique(final(cs)@, |c: (ConversationId, u64)| c.0),
        counter_of(final(cs)@, id) == n,
        forall|other: ConversationId| other != id ==> counter_of(final(cs)@, other) == counter_of(old(cs)@, other),
{
    let ghost s = cs@;
    proof {
        lemma_unique_key_at_most_one(s, |c: (ConversationId, u64)| c.0, counter_is(id), id);
    }
    let found = counter_position(cs, id);
    let n: u64;
    match found {
        Some(k) => {
            proof {
                assert(counter_is(id)(s[k as int]));
                let j = pick(s, counter_is(id));
                assert(counter_is(id)(s[j]));
            }
            n = cs[k].1 + 1;
            cs.set(k, (id, n));
            assert(cs@ =~= s.update(k as int, (id, n)));
        },
        None => {
            proof {
                if exists_in(s, counter_is(id)) {
                    let j = pick(s, counter_is(id));
                    assert(counter_is(id)(s[j]));
                }
            }
            n = 1;
            cs.push((id, n));
            assert(cs@ =~= s.push((id, n)));
        },
    }
    proof {
        lemma_put_keeps_keys_unique(s, |c: (ConversationId, u64)| c.0, counter_is(id), (id, n));
        lemma_find_put_same(s, counter_is(id), (id, n));
        assert forall|other: ConversationId| other != id implies counter_of(cs@, other) == counter_of(s, other) by {
            lemma_unique_key_at_most_one(s, |c: (ConversationId, u64)| c.0, counter_is(other), other);
            assert forall|y: (ConversationId, u64)| !(#[trigger] counter_is(id)(y) && counter_is(other)(y)) by {}
            lemma_find_put_other(s, counter_is(id), counter_is(other), (id, n));
        }
    }
    n
}


fn events_url_text(id: ConversationId) -> (url: String)
    ensures
        url@ == events_url(id),
{
    let text = uuid_to_string(id.0);
    proof {
        reveal_strlit("/api/v1/agent/conversations/");
        reveal_strlit("/events");
    }
    String::from_str("/api/v1/agent/conversations/").concat(text.as_str()).concat("/events")
}

/// A submission decided before anything is written.
enum AppendDecision {
    Replay(SubmitAcceptance),
    Proceed(usize, String),
}

pub proof fn lemma_counter_bound(cs: Seq<(ConversationId, u64)>, id: ConversationId, bound: u64)
    requires
        forall|i: int| 0 <= i < cs.len() ==> #[trigger] cs[i].1 < bound,
        bound > 0,
    ensures
        counter_of(cs, id) < bound,
{
    if exists_in(cs, counter_is(id)) {
        let k = pick(cs, counter_is(id));
        assert(counter_is(id)(cs[k]));
    }
}

impl MemoryAgentRepository {
    pub fn new() -> (repo: Self)
        ensures
            repo@.wf(),
            repo@.has_room(),
            repo@.conversations.len() == 0,
            repo@.events.len() == 0,
            repo@.outbox.len() == 0,
    {
        let repo = MemoryAgentRepository {
            conversations: Vec::new(),
            messages: Vec::new(),
            turns: Vec::new(),
            runs: Vec::new(),
            events: Vec::new(),
            message_counters: Vec::new(),
            event_counters: Vec::new(),
            submissions: Vec::new(),
            checkpoints: Vec::new(),
            tool_calls: Vec::new(),
            outbox: Vec::new(),
        };
        assert(repo@.messages =~= Seq::<MessageV>::empty());
        assert(repo@.events =~= Seq::<EventV>::empty());
        assert(repo@.submissions =~= Seq::<SubmissionV>::empty());
        assert(repo@.outbox =~= Seq::<EventV>::empty());
        repo
    }

    /// Whether every counter and version of the store is still far from its
    /// limit, so that each operation can bump one.
    pub fn has_room(&self) -> (b: bool)
        ensures
            b == self@.has_room(),
    {
        let mut i: usize = 0;
        while i < self.message_counters.len()
            invariant
                i <= self.message_counters@.len(),
                forall|k: int| 0 <= k < i ==> #[trigger] self.message_counters@[k].1 < 0x1000_0000_0000_0000,
            decreases self.message_counters.len() - i,
        {
            if self.message_counters[i].1 >= 0x1000_0000_0000_0000 {
                assert(self@.message_counters[i as int].1 >= 0x1000_0000_0000_0000);
                return false;
            }
            i += 1;
        }
        let mut i: usize = 0;
        while i < self.event_counters.len()
            invariant
                i <= self.event_counters@.len(),
                forall|k: int| 0 <= k < i ==> #[trigger] self.event_counters@[k].1 < 0x1000_0000_0000_0000,
            decreases self.event_counters.len() - i,
        {
            if self.event_counters[i].1 >= 0x1000_0000_0000_0000 {
                assert(self@.event_counters[i as int].1 >= 0x1000_0000_0000_0000);
                return false;
            }
            i += 1;
        }
        let mut i: usize = 0;
        while i < self.conversations.len()
            invariant
                i <= self.conversations@.len(),
                forall|k: int| 0 <= k < i ==> #[trigger] self.conversations@[k].revision < 0x1000_0000_0000_0000,
            decreases self.conversations.len() - i,
        {
            if self.conversations[i].revision >= 0x1000_0000_0000_0000 {
                return false;
            }
            i += 1;
        }
        let mut i: usize = 0;
        while i < self.turns.len()
            invariant
                i <= self.turns@.len(),
                forall|k: int| 0 <= k < i ==> #[trigger] self.turns@[k].cancel_version < 0x1000_0000_0000_0000,
            decreases self.turns.len() - i,
        {
            if self.turns[i].cancel_version >= 0x1000_0000_0000_0000 {
                return false;
            }
            i += 1;
        }
        let mut i: usize = 0;
        while i < self.checkpoints.len()
            invariant
                i <= self.checkpoints@.len(),
                forall|k: int| 0 <= k < i ==> #[trigger] self.checkpoints@[k].version < 0x1000_0000_0000_0000,
            decreases self.checkpoints.len() - i,
        {
            if self.checkpoints[i].version >= 0x1000_0000_0000_0000 {
                return false;
            }
            i += 1;
        }
        true
    }

    /// Hands out the events queued since the last call, oldest first.
    pub fn drain_outbox(&mut self) -> (events: Vec<ConversationEvent>)
        ensures
            submissions_kept(old(self)@, final(self)@),
            event_views(events@) == old(self)@.outbox,
            final(self)@ == (AgentStoreV { outbox: Seq::empty(), ..old(self)@ }),
    {
        let mut taken: Vec<ConversationEvent> = Vec::new();
        std::mem::swap(&mut taken, &mut self.outbox);
        assert(self@.outbox =~= Seq::<EventV>::empty());
        assert(self@.messages =~= old(self)@.messages);
        assert(self@.events =~= old(self)@.events);
        assert(self@.submissions =~= old(self)@.submissions);
        taken
    }


    /// Appends an event of conversation `c` with the next sequence number and
    /// queues it for delivery.
    fn emit(
        &mut self,
        c: &Conversation,
        event_type: &str,
        turn_id: Option<TurnId>,
        run_id: Option<RunId>,
        payload: EventPayload,
    )
        requires
            old(self)@.wf(),
            counter_of(old(self)@.event_counters, c.id) < u64::MAX,
        ensures
            final(self)@.wf(),
            final(self)@.events.len() == old(self)@.events.len() + 1,
            counter_of(final(self)@.event_counters, c.id) == counter_of(old(self)@.event_counters, c.id) + 1,
            event_fits(
                final(self)@.events.last(),
                *c,
                counter_of(old(self)@.event_counters, c.id) + 1,
                event_type@,
                turn_id,
                run_id,
                payload@,
            ),
            final(self)@ == (AgentStoreV {
                events: old(self)@.events.push(final(self)@.events.last()),
                event_counters: put(
                    old(self)@.event_counters,
                    counter_is(c.id),
                    (c.id, (counter_of(old(self)@.event_counters, c.id) + 1) as u64),
                ),
                outbox: old(self)@.outbox.push(final(self)@.events.last()),
                ..old(self)@
            }),
    {
        let ghost old_events = self@.events;
        let ghost old_counters = self@.event_counters;
        let ghost old_outbox = self@.outbox;
        let sequence = bump_counter(&mut self.event_counters, c.id);
        let event = ConversationEvent {
            id: ConversationEventId::new(new_uuid()),
            conversation_id: c.id,
            operator_id: c.operator_id,
            tenant_id: c.tenant_id,
            project_id: c.project_id,
            sequence,
            event_type: event_type.to_owned(),
            turn_id,
            run_id,
            payload,
            occurred_at: utc_now_micros(),
        };
        let ghost ev = event@;
        self.outbox.push(event.copy());
        self.events.push(event);
        proof {
            assert(self@.events =~= old_events.push(ev));
            assert(self@.outbox =~= old_outbox.push(ev));
            assert(self@.messages =~= old(self)@.messages);
            assert(self@.submissions =~= old(self)@.submissions);
            let es = self@.events;
            let cs = self@.event_counters;
            assert forall|i: int, j: int|
                0 <= i < j < es.len() && (#[trigger] es[i]).conversation_id == (#[trigger] es[j]).conversation_id implies es[i].sequence
                < es[j].sequence by {
                if j == es.len() - 1 {
                    assert(old_events[i].sequence <= counter_of(old_counters, old_events[i].conversation_id));
                } else {
                    assert(old_events[i] == es[i] && old_events[j] == es[j]);
                }
            }
            assert forall|i: int| 0 <= i < es.len() implies (#[trigger] es[i]).sequence <= counter_of(cs, es[i].conversation_id) by {
                if i < es.len() - 1 {
                    assert(old_events[i] == es[i]);
                    assert(old_events[i].sequence <= counter_of(old_counters, old_events[i].conversation_id));
                }
            }
        }
    }

    fn put_conversation(&mut self, c: Conversation)
        requires
            old(self)@.wf(),
        ensures
            final(self)@.wf(),
            final(self)@ == (AgentStoreV {
                conversations: put(old(self)@.conversations, conversation_is(c.id), c),
                ..old(self)@
            }),
            has_conversation(final(self)@.conversations, c.id),
    {
        let ghost s = self@.conversations;
        let ghost cv = c;
        match self.conversation_position(c.id) {
            Some(i) => {
                self.conversations.set(i, c);
                assert(self@.conversations =~= s.update(i as int, cv));
            },
            None => {
                self.conversations.push(c);
                assert(self@.conversations =~= s.push(cv));
            },
        }
        proof {
            lemma_put_keeps_keys_unique(s, |x: Conversation| x.id, conversation_is(cv.id), cv);
            lemma_put_conversation_ids(s, cv);
            assert(self@.messages =~= old(self)@.messages);
            assert(self@.events =~= old(self)@.events);
            assert(self@.submissions =~= old(self)@.submissions);
            assert(self@.outbox =~= old(self)@.outbox);
        }
    }

    fn put_turn(&mut self, t: Turn)
        requires
            old(self)@.wf(),
            has_conversation(old(self)@.conversations, t.conversation_id),
        ensures
            final(self)@.wf(),
            final(self)@ == (AgentStoreV { turns: put(old(self)@.turns, turn_is(t.id), t), ..old(self)@ }),
            has_turn(final(self)@.turns, t.id),
    {
        let ghost s = self@.turns;
        let ghost tv = t;
        match self.turn_position(t.id) {
            Some(i) => {
                self.turns.set(i, t);
                assert(self@.turns =~= s.update(i as int, tv));
            },
            None => {
                self.turns.push(t);
                assert(self@.turns =~= s.push(tv));
            },
        }
        proof {
            lemma_put_keeps_keys_unique(s, |x: Turn| x.id, turn_is(tv.id), tv);
            lemma_put_turn_ids(s, tv);
            assert forall|i: int| 0 <= i < self@.turns.len() implies has_conversation(
                self@.conversations,
                #[trigger] self@.turns[i].conversation_id,
            ) by {
                lemma_put_entries(s, turn_is(tv.id), tv, i);
            }
            assert(self@.messages =~= old(self)@.messages);
            assert(self@.events =~= old(self)@.events);
            assert(self@.submissions =~= old(self)@.submissions);
            assert(self@.outbox =~= old(self)@.outbox);
        }
    }

    fn put_run(&mut self, r: Run)
        requires
            old(self)@.wf(),
            has_turn(old(self)@.turns, r.turn_id),
            has_conversation(old(self)@.conversations, r.conversation_id),
        ensures
            final(self)@.wf(),
            final(self)@ == (AgentStoreV { runs: put(old(self)@.runs, run_is(r.id), r), ..old(self)@ }),
    {
        let ghost s = self@.runs;
        let ghost rv = r;
        match self.run_position(r.id) {
            Some(i) => {
                self.runs.set(i, r);
                assert(self@.runs =~= s.update(i as int, rv));
            },
            None => {
                self.runs.push(r);
                assert(self@.runs =~= s.push(rv));
            },
        }
        proof {
            lemma_put_keeps_keys_unique(s, |x: Run| x.id, run_is(rv.id), rv);
            assert forall|i: int| 0 <= i < self@.runs.len() implies has_turn(self@.turns, #[trigger] self@.runs[i].turn_id)
                && has_conversation(self@.conversations, self@.runs[i].conversation_id) by {
                lemma_put_entries(s, run_is(rv.id), rv, i);
            }
            assert(self@.messages =~= old(self)@.messages);
            assert(self@.events =~= old(self)@.events);
            assert(self@.submissions =~= old(self)@.submissions);
            assert(self@.outbox =~= old(self)@.outbox);
        }
    }

    fn has_message(&self, id: MessageId) -> (b: bool)
        ensures
            b == exists_in(self@.messages, message_is(id)),
    {
        let ghost s = self@.messages;
        let mut i: usize = 0;
        while i < self.messages.len()
            invariant
                i <= self.messages.len(),
                s == message_views(self.messages@),
                forall|k: int| 0 <= k < i ==> (#[trigger] s[k]).id != id,
            decreases self.messages.len() - i,
        {
            assert(s[i as int] == self.messages@[i as int]@);
            if self.messages[i].id == id {
                assert(message_is(id)(s[i as int]));
                return true;
            }
            i += 1;
        }
        proof {
            if exists_in(s, message_is(id)) {
                let j = choose|j: int| 0 <= j < s.len() && message_is(id)(#[trigger] s[j]);
                assert(s[j].id == id);
            }
        }
        false
    }

    /// An id no stored message has: a fresh random one, or else the
    /// smallest unused small number, which exists because the store holds
    /// fewer messages than there are numbers up to its size.
    fn fresh_message_id(&self) -> (id: MessageId)
        ensures
            !exists_in(self@.messages, message_is(id)),
    {
        let first = MessageId::new(new_uuid());
        if !self.has_message(first) {
            return first;
        }
        let n: u128 = self.messages.len() as u128;
        let mut k: u128 = 0;
        while k <= n
            invariant
                n == self@.messages.len(),
                n <= usize::MAX,
                forall|j: int| 0 <= j < k ==> #[trigger] exists_in(self@.messages, message_is(MessageId(j as u128))),
            decreases n + 1 - k,
        {
            let candidate = MessageId::new(k);
            if !self.has_message(candidate) {
                return candidate;
            }
            k += 1;
        }
        proof {
            let ms = self@.messages;
            let ids = ms.map_values(|m: MessageV| m.id.0 as int);
            let range = vstd::set_lib::set_int_range(0, n + 1);
            assert forall|j: int| range.contains(j) implies ids.to_set().contains(j) by {
                assert(exists_in(ms, message_is(MessageId(j as u128))));
                let i = choose|i: int| 0 <= i < ms.len() && message_is(MessageId(j as u128))(#[trigger] ms[i]);
                assert(ids[i] == j);
                assert(ids.contains(j));
            }
            vstd::set_lib::lemma_int_range(0, n + 1);
            ids.lemma_cardinality_of_set();
            vstd::seq_lib::seq_to_set_is_finite(ids);
            vstd::set_lib::lemma_len_subset(range, ids.to_set());
            assert(false);
        }
        MessageId::new(0)
    }

    fn put_message(&mut self, m: Message)
        requires
            old(self)@.wf_but_messages(),
            !exists_in(old(self)@.messages, message_is(m.id)),
            messages_counted(old(self)@.message_counters, old(self)@.messages.push(m@)),
        ensures
            final(self)@.wf(),
            final(self)@ == (AgentStoreV { messages: put(old(self)@.messages, message_is(m.id), m@), ..old(self)@ }),
            final(self)@.messages == old(self)@.messages.push(m@),
    {
        let ghost s = self@.messages;
        let ghost mv = m@;
        let mut i: usize = 0;
        let mut found: Option<usize> = None;
        while i < self.messages.len() && found.is_none()
            invariant
                i <= self.messages.len(),
                s == message_views(self.messages@),
                mv == m@,
                match found {
                    Some(k) => k < s.len() && s[k as int].id == mv.id,
                    None => forall|k: int| 0 <= k < i ==> (#[trigger] s[k]).id != mv.id,
                },
            decreases self.messages.len() - i + (if found is None { 1int } else { 0int }),
        {
            if self.messages[i].id == m.id {
                assert(s.len() == self.messages@.len());
                assert(s[i as int] == self.messages@[i as int]@);
                assert(s[i as int].id == mv.id);
                found = Some(i);
            } else {
                i += 1;
            }
        }
        proof {
            lemma_unique_key_at_most_one(s, |x: MessageV| x.id, message_is(mv.id), mv.id);
        }
        match found {
            Some(k) => {
                proof {
                    assert(message_is(mv.id)(s[k as int]));
                    let j = pick(s, message_is(mv.id));
                    assert(message_is(mv.id)(s[j]));
                }
                self.messages.set(k, m);
                assert(self@.messages =~= s.update(k as int, mv));
            },
            None => {
                proof {
                    if exists_in(s, message_is(mv.id)) {
                        let j = pick(s, message_is(mv.id));
                        assert(message_is(mv.id)(s[j]));
                    }
                }
                self.messages.push(m);
                assert(self@.messages =~= s.push(mv));
            },
        }
        proof {
            lemma_put_keeps_keys_unique(s, |x: MessageV| x.id, message_is(mv.id), mv);
            assert(self@.conversations =~= old(self)@.conversations);
            assert(self@.turns =~= old(self)@.turns);
            assert(self@.runs =~= old(self)@.runs);
            assert(self@.events =~= old(self)@.events);
            assert(self@.submissions =~= old(self)@.submissions);
            assert(self@.outbox =~= old(self)@.outbox);
            lemma_linked_same(old(self)@, self@);
        }
    }

    /// A new active conversation in the project `scope` names.
    pub fn create_conversation(&mut self, scope: &TenantScope, created_by: Option<UserId>, input: CreateConversation) -> (r:
        Result<Conversation, AppError>)
        requires
            old(self)@.wf(),
            old(self)@.has_room(),
        ensures
            submissions_kept(old(self)@, final(self)@),
            final(self)@.wf(),
            match scope.project_id {
                None => result_view(r) == Err::<Conversation, ErrorV>(invalid("project selector is required"@))
                    && final(self)@ == old(self)@,
                Some(project_id) => match title_rule(opt_text(input.title)) {
                    Err(e) => result_view(r) == Err::<Conversation, ErrorV>(e) && final(self)@ == old(self)@,
                    Ok(title) => r matches Ok(c) && {
                        &&& c.operator_id == scope.operator_id
                        &&& c.tenant_id == scope.tenant_id
                        &&& c.project_id == project_id
                        &&& c.created_by == created_by
                        &&& opt_text(c.title) == title
                        &&& c.status == ConversationStatus::Active
                        &&& c.revision == 1
                        &&& c.created_at == c.updated_at
                        &&& event_fits(
                            final(self)@.events.last(),
                            c,
                            counter_of(old(self)@.event_counters, c.id) + 1,
                            "conversation.created"@,
                            None,
                            None,
                            PayloadV::ConversationCreated { conversation_id: c.id },
                        )
                        &&& final(self)@ == (AgentStoreV {
                            conversations: put(old(self)@.conversations, conversation_is(c.id), c),
                            events: old(self)@.events.push(final(self)@.events.last()),
                            event_counters: put(
                                old(self)@.event_counters,
                                counter_is(c.id),
                                (c.id, (counter_of(old(self)@.event_counters, c.id) + 1) as u64),
                            ),
                            outbox: old(self)@.outbox.push(final(self)@.events.last()),
                            ..old(self)@
                        })
                    },
                },
            },
    {
        let project_id = match scope.project_id {
            Some(p) => p,
            None => {
                return Err(AppError::invalid_request("project selector is required"));
            },
        };
        let title = match &input.title {
            None => None,
            Some(t) => {
                let trimmed_title = trim(t.as_str());
                let n = trimmed_title.unicode_len();
                if n == 0 {
                    None
                } else if n > 200 {
                    return Err(AppError::invalid_request("conversation title must be at most 200 characters"));
                } else {
                    Some(trimmed_title.to_owned())
                }
            },
        };
        let now = utc_now_micros();
        let conversation = Conversation {
            id: ConversationId::new(new_uuid()),
            operator_id: scope.operator_id,
            tenant_id: scope.tenant_id,
            project_id,
            created_by,
            title,
            status: ConversationStatus::Active,
            revision: 1,
            created_at: now,
            updated_at: now,
        };
        let ghost c = conversation;
        self.put_conversation(conversation.copy());
        proof {
            let cs = self@.event_counters;
            if exists_in(cs, counter_is(c.id)) {
                let k = pick(cs, counter_is(c.id));
                assert(counter_is(c.id)(cs[k]));
            }
        }
        self.emit(
            &conversation,
            "conversation.created",
            None,
            None,
            EventPayload::ConversationCreated { conversation_id: conversation.id },
        );
        Ok(conversation)
    }

    fn submission_position(&self, key: &str, id: ConversationId) -> (r: Option<usize>)
        requires
            self@.wf(),
        ensures
            match r {
                Some(i) => i < self@.submissions.len() && exists_in(self@.submissions, submission_is(key@, id)) && pick(
                    self@.submissions,
                    submission_is(key@, id),
                ) == i,
                None => !exists_in(self@.submissions, submission_is(key@, id)),
            },
    {
        let ghost s = self@.submissions;
        let ghost p = submission_is(key@, id);
        proof {
            lemma_unique_key_at_most_one(
                s,
                |x: SubmissionV| (x.idempotency_key_hash, x.conversation_id),
                p,
                (key@, id),
            );
        }
        let mut i: usize = 0;
        while i < self.submissions.len()
            invariant
                i <= self.submissions.len(),
                s == submission_views(self.submissions@),
                p == submission_is(key@, id),
                at_most_one(s, p),
                forall|k: int| 0 <= k < i ==> !p(#[trigger] s[k]),
            decreases self.submissions.len() - i,
        {
            let sub = &self.submissions[i];
            if sub.conversation_id == id && str_eq(sub.idempotency_key_hash.as_str(), key) {
                proof {
                    assert(s[i as int] == self.submissions@[i as int]@);
                    assert(p(s[i as int]));
                    let j = pick(s, p);
                    assert(p(s[j]));
                }
                return Some(i);
            }
            assert(s[i as int] == self.submissions@[i as int]@);
            i += 1;
        }
        proof {
            if exists_in(s, p) {
                let j = pick(s, p);
                assert(p(s[j]));
            }
        }
        None
    }

    fn put_submission(&mut self, sub: Submission)
        requires
            old(self)@.wf(),
        ensures
            final(self)@.wf(),
            final(self)@ == (AgentStoreV {
                submissions: put(
                    old(self)@.submissions,
                    submission_is(sub.idempotency_key_hash@, sub.conversation_id),
                    sub@,
                ),
                ..old(self)@
            }),
    {
        let ghost s = self@.submissions;
        let ghost sv = sub@;
        match self.submission_position(sub.idempotency_key_hash.as_str(), sub.conversation_id) {
            Some(i) => {
                self.submissions.set(i, sub);
                assert(self@.submissions =~= s.update(i as int, sv));
            },
            None => {
                self.submissions.push(sub);
                assert(self@.submissions =~= s.push(sv));
            },
        }
        proof {
            lemma_put_keeps_keys_unique(
                s,
                |x: SubmissionV| (x.idempotency_key_hash, x.conversation_id),
                submission_is(sv.idempotency_key_hash, sv.conversation_id),
                sv,
            );
            assert(self@.messages =~= old(self)@.messages);
            assert(self@.events =~= old(self)@.events);
            assert(self@.outbox =~= old(self)@.outbox);
            assert(self@.conversations == old(self)@.conversations && self@.turns == old(self)@.turns && self@.runs
                == old(self)@.runs);
            lemma_linked_same(old(self)@, self@);
        }
    }

    fn has_active_turn(&self, id: ConversationId) -> (r: bool)
        ensures
            r == exists_in(self@.turns, active_turn_of(id)),
    {
        let ghost s = self@.turns;
        let mut i: usize = 0;
        while i < self.turns.len()
            invariant
                i <= self.turns.len(),
                s == self.turns@,
                forall|k: int| 0 <= k < i ==> !active_turn_of(id)(#[trigger] s[k]),
            decreases self.turns.len() - i,
        {
            let t = &self.turns[i];
            if t.conversation_id == id && (t.status == TurnStatus::Queued || t.status == TurnStatus::Running) {
                assert(active_turn_of(id)(s[i as int]));
                return true;
            }
            i += 1;
        }
        proof {
            if exists_in(s, active_turn_of(id)) {
                let j = pick(s, active_turn_of(id));
                assert(active_turn_of(id)(s[j]));
            }
        }
        false
    }

    /// The most recently created turn of a conversation; among turns created
    /// at the same instant, the one stored last.
    fn latest_turn(&self, id: ConversationId) -> (r: Option<TurnId>)
        ensures
            is_latest_turn(self@.turns, id, r),
    {
        let ghost s = self@.turns;
        let mut best: Option<usize> = None;
        let mut i: usize = 0;
        while i < self.turns.len()
            invariant
                i <= self.turns.len(),
                s == self.turns@,
                match best {
                    None => forall|k: int| 0 <= k < i ==> (#[trigger] s[k]).conversation_id != id,
                    Some(b) => b < i && s[b as int].conversation_id == id && forall|k: int|
                        0 <= k < i && (#[trigger] s[k]).conversation_id == id ==> s[k].created_at <= s[b as int].created_at,
                },
            decreases self.turns.len() - i,
        {
            let t = &self.turns[i];
            if t.conversation_id == id {
                match best {
                    None => {
                        best = Some(i);
                    },
                    Some(b) => {
                        if t.created_at >= self.turns[b].created_at {
                            best = Some(i);
                        }
                    },
                }
            }
            i += 1;
        }
        match best {
            None => {
                proof {
                    if exists_in(s, turn_of(id)) {
                        let j = pick(s, turn_of(id));
                        assert(turn_of(id)(s[j]));
                    }
                }
                None
            },
            Some(b) => {
                let tid = self.turns[b].id;
                assert(s[b as int].id == tid);
                Some(tid)
            },
        }
    }

    fn decide_append(
        &self,
        scope: &TenantScope,
        conversation_id: ConversationId,
        input: &crate::agent::AppendMessage,
        key: &str,
        request_hash: &str,
    ) -> (r: Result<AppendDecision, AppError>)
        requires
            self@.wf(),
        ensures
            match append_step(self@, *scope, conversation_id, input.content@, input.attachments@, key@, request_hash@) {
                AppendStep::Rejected(e) => result_view(r) == Err::<AppendDecision, ErrorV>(e),
                AppendStep::Replayed(a) => r matches Ok(AppendDecision::Replay(x)) && x@ == a,
                AppendStep::Fresh(c, text) => r matches Ok(AppendDecision::Proceed(i, t)) && i < self@.conversations.len()
                    && self@.conversations[i as int] == c && pick(self@.conversations, conversation_is(conversation_id))
                    == i && t@ == text,
            },
    {
        let content = validate_append_message(input)?;
        let i = match self.conversation_position(conversation_id) {
            Some(i) => i,
            None => {
                return Err(AppError::not_found("conversation not found"));
            },
        };
        let c = &self.conversations[i];
        if !scope.contains(&c.scope()) {
            return Err(AppError::not_found("conversation not found"));
        }
        match self.submission_position(key, conversation_id) {
            Some(k) => {
                let sub = &self.submissions[k];
                assert(self@.submissions[k as int] == sub@);
                if !str_eq(sub.request_hash.as_str(), request_hash) {
                    return Err(AppError::conflict("Idempotency-Key was already used with a different message request"));
                }
                return Ok(AppendDecision::Replay(sub.acceptance.copy()));
            },
            None => {},
        }
        if c.status != ConversationStatus::Active {
            return Err(AppError::conflict("conversation is archived"));
        }
        if self.has_active_turn(conversation_id) {
            return Err(AppError::conflict("conversation already has an active turn"));
        }
        Ok(AppendDecision::Proceed(i, content))
    }

    /// Writes a fresh submission for conversation `i`.
    #[verifier::rlimit(60)]
    fn commit_append(
        &mut self,
        i: usize,
        content: String,
        input: crate::agent::AppendMessage,
        key: String,
        request_hash: String,
        capability: RuntimeCapability,
    ) -> (a: SubmitAcceptance)
        requires
            old(self)@.wf(),
            old(self)@.has_room(),
            i < old(self)@.conversations.len(),
        ensures
            final(self)@.wf(),
            fresh_submission(
                old(self)@,
                final(self)@,
                old(self)@.conversations[i as int],
                content@,
                input.attachments@,
                input.metadata@,
                key@,
                request_hash@,
                capability,
                a@,
            ),
    {
        let ghost s0 = self@;
        let c = self.conversations[i].copy();
        let cid = c.id;
        proof {
            lemma_counter_bound(s0.message_counters, cid, 0x1000_0000_0000_0000);
            lemma_counter_bound(s0.event_counters, cid, 0x1000_0000_0000_0000);
            assert(s0.conversations[i as int].revision < 0x1000_0000_0000_0000);
        }
        let ghost base = counter_of(s0.event_counters, cid) as int;
        let previous_turn_id = self.latest_turn(cid);
        let now = utc_now_micros();
        let turn_id = TurnId::new(new_uuid());
        let run_id = RunId::new(new_uuid());
        let conversation = Conversation { revision: c.revision + 1, updated_at: now, ..c };
        self.put_conversation(conversation.copy());
        let message_id = self.fresh_message_id();
        let ghost before_bump = self@;
        let sequence = bump_counter(&mut self.message_counters, cid);
        let message = Message {
            id: message_id,
            conversation_id: cid,
            operator_id: c.operator_id,
            tenant_id: c.tenant_id,
            project_id: c.project_id,
            turn_id: Some(turn_id),
            role: MessageRole::User,
            content,
            attachments: input.attachments,
            metadata: input.metadata,
            sequence,
            created_at: now,
        };
        proof {
            lemma_counted_after_bump(before_bump.message_counters, self@.message_counters, before_bump.messages, message@);
            assert(self@.conversations == before_bump.conversations);
            assert(self@.turns == before_bump.turns);
            assert(self@.runs == before_bump.runs);
        }
        self.put_message(message.copy());
        let failed = !capability.is_available();
        let error = if failed {
            let reason = match &capability.reason {
                Some(r) => r.clone(),
                None => String::from_str("agent runtime is unavailable"),
            };
            proof {
                reveal_strlit("agent runtime is unavailable");
            }
            Some(AppError::with_message(ErrorCode::CapabilityMissing, reason))
        } else {
            None
        };
        let turn = Turn {
            id: turn_id,
            conversation_id: cid,
            root_message_id: message.id,
            previous_turn_id,
            run_id: Some(run_id),
            status: if failed {
                TurnStatus::Failed
            } else {
                TurnStatus::Queued
            },
            cancel_version: 0,
            created_at: now,
            updated_at: now,
        };
        let run = Run {
            id: run_id,
            conversation_id: cid,
            turn_id,
            operator_id: c.operator_id,
            tenant_id: c.tenant_id,
            project_id: c.project_id,
            status: if failed {
                RunStatus::Failed
            } else {
                RunStatus::Queued
            },
            capability: capability.copy(),
            error: copy_opt_error(&error),
            cancel_version: 0,
            created_at: now,
            updated_at: now,
        };
        self.put_turn(turn.copy());
        self.put_run(run.copy());
        let ghost s2 = self@;
        self.emit(
            &conversation,
            "message.created",
            Some(turn_id),
            Some(run_id),
            EventPayload::MessageCreated { message: message.copy() },
        );
        let ghost e1 = self@.events.last();
        self.emit(
            &conversation,
            "turn.accepted",
            Some(turn_id),
            Some(run_id),
            EventPayload::TurnAccepted { turn_id, run_id },
        );
        let ghost e2 = self@.events.last();
        let ghost e3 = e2;
        if let Some(e) = &error {
            self.emit(
                &conversation,
                "run.failed",
                Some(turn_id),
                Some(run_id),
                EventPayload::RunFailed { run_id, status: RunStatus::Failed, error: e.copy() },
            );
            proof {
                e3 = self@.events.last();
            }
        }
        let ghost s3 = self@;
        let acceptance = SubmitAcceptance {
            conversation,
            message,
            turn,
            run,
            events_url: events_url_text(cid),
        };
        self.put_submission(
            Submission {
                idempotency_key_hash: key,
                conversation_id: cid,
                request_hash,
                acceptance: acceptance.copy(),
            },
        );
        proof {
            let s4 = self@;
            let av = acceptance@;
            let added = s4.events.skip(s0.events.len() as int);
            lemma_unique_key_at_most_one(s0.event_counters, |x: (ConversationId, u64)| x.0, counter_is(cid), cid);
            lemma_put_put(
                s0.event_counters,
                counter_is(cid),
                (cid, (base + 1) as u64),
                (cid, (base + 2) as u64),
            );
            if failed {
                assert(s4.events =~= s2.events.push(e1).push(e2).push(e3));
                assert(added =~= seq![e1, e2, e3]);
                lemma_put_put(
                    put(s0.event_counters, counter_is(cid), (cid, (base + 1) as u64)),
                    counter_is(cid),
                    (cid, (base + 2) as u64),
                    (cid, (base + 3) as u64),
                );
                lemma_put_put(
                    s0.event_counters,
                    counter_is(cid),
                    (cid, (base + 1) as u64),
                    (cid, (base + 3) as u64),
                );
            } else {
                assert(s4.events =~= s2.events.push(e1).push(e2));
                assert(added =~= seq![e1, e2]);
            }
            assert(s4.events.take(s0.events.len() as int) =~= s0.events);
            assert(s4.outbox =~= s0.outbox + added);
            assert(is_latest_turn(s0.turns, cid, av.turn.previous_turn_id));
        }
        acceptance
    }

    /// Accepts a user message into conversation `conversation_id`: replays
    /// the stored acceptance for a repeated idempotency key and request,
    /// rejects a reused key, an archived conversation and a second active
    /// turn, and otherwise records the message, a new turn and its run.
    pub fn append_message(
        &mut self,
        scope: &TenantScope,
        conversation_id: ConversationId,
        input: crate::agent::AppendMessage,
        idempotency_key_hash: String,
        request_hash: String,
        capability: RuntimeCapability,
    ) -> (r: Result<SubmitAcceptance, AppError>)
        requires
            old(self)@.wf(),
            old(self)@.has_room(),
        ensures
            submissions_kept(old(self)@, final(self)@),
            final(self)@.wf(),
            append_outcome(
                old(self)@,
                final(self)@,
                *scope,
                conversation_id,
                input.content@,
                input.attachments@,
                input.metadata@,
                idempotency_key_hash@,
                request_hash@,
                capability,
                acceptance_result(r),
            ),
    {
        let decision = self.decide_append(
            scope,
            conversation_id,
            &input,
            idempotency_key_hash.as_str(),
            request_hash.as_str(),
        )?;
        let ghost key_v = idempotency_key_hash@;
        let ghost hash_v = request_hash@;
        let ghost cap_v = capability;
        let ghost content_v = input.content@;
        let ghost attachments_v = input.attachments@;
        let ghost metadata_v = input.metadata@;
        match decision {
            AppendDecision::Replay(a) => Ok(a),
            AppendDecision::Proceed(i, content) => {
                let a = self.commit_append(i, content, input, idempotency_key_hash, request_hash, capability);
                proof {
                    lemma_append_keeps_submissions(
                        old(self)@,
                        self@,
                        *scope,
                        conversation_id,
                        content_v,
                        attachments_v,
                        metadata_v,
                        key_v,
                        hash_v,
                        cap_v,
                        Ok::<SubmitAcceptanceV, ErrorV>(a@),
                    );
                }
                Ok(a)
            },
        }
    }

    /// Claims a queued run for execution: `Queued` to `Running` is one
    /// guarded step, so a run is claimed at most once.  `None` means the run
    /// was never this caller's to run.
    pub fn begin_run(&mut self, scope: &TenantScope, run_id: RunId) -> (r: Result<Option<Run>, AppError>)
        requires
            old(self)@.wf(),
            old(self)@.has_room(),
        ensures
            submissions_kept(old(self)@, final(self)@),
            final(self)@.wf(),
            begin_outcome(old(self)@, final(self)@, *scope, run_id, result_view(r)),
    {
        let ghost s0 = self@;
        let i = match self.run_position(run_id) {
            Some(i) => i,
            None => {
                return Ok(None);
            },
        };
        if !scope.contains(&self.runs[i].scope()) || self.runs[i].status != RunStatus::Queued {
            return Ok(None);
        }
        let ci = match self.conversation_position(self.runs[i].conversation_id) {
            Some(ci) => ci,
            None => {
                return Err(AppError::not_found("conversation not found"));
            },
        };
        let c = self.conversations[ci].copy();
        proof {
            lemma_counter_bound(s0.event_counters, c.id, 0x1000_0000_0000_0000);
        }
        let now = utc_now_micros();
        let claimed = Run { status: RunStatus::Running, updated_at: now, ..self.runs[i].copy() };
        self.put_run(claimed.copy());
        match self.turn_position(claimed.turn_id) {
            Some(ti) => {
                if self.turns[ti].status == TurnStatus::Queued {
                    let t = Turn { status: TurnStatus::Running, updated_at: now, ..self.turns[ti].copy() };
                    self.put_turn(t);
                }
            },
            None => {},
        }
        let ghost mid = self@;
        self.emit(
            &c,
            "run.running",
            Some(claimed.turn_id),
            Some(claimed.id),
            EventPayload::RunRunning { run_id: claimed.id, status: RunStatus::Running },
        );
        proof {
            assert(self@.events.drop_last() =~= mid.events);
        }
        Ok(Some(claimed))
    }

    /// Cancels a turn whose run has not finished; a finished run is answered
    /// as it stands.
    pub fn cancel_turn(&mut self, scope: &TenantScope, turn_id: TurnId) -> (r: Result<Run, AppError>)
        requires
            old(self)@.wf(),
            old(self)@.has_room(),
        ensures
            submissions_kept(old(self)@, final(self)@),
            final(self)@.wf(),
            cancel_outcome(old(self)@, final(self)@, *scope, turn_id, result_view(r)),
    {
        let ghost s0 = self@;
        let ti = match self.turn_position(turn_id) {
            Some(ti) => ti,
            None => {
                return Err(AppError::not_found("turn not found"));
            },
        };
        let turn = self.turns[ti].copy();
        let rid = match turn.run_id {
            Some(rid) => rid,
            None => {
                return Err(AppError::not_found("run not found"));
            },
        };
        let ri = match self.run_position(rid) {
            Some(ri) => ri,
            None => {
                return Err(AppError::not_found("run not found"));
            },
        };
        let run = self.runs[ri].copy();
        if !scope.contains(&run.scope()) {
            return Err(AppError::not_found("turn not found"));
        }
        if run.status == RunStatus::Succeeded || run.status == RunStatus::Failed || run.status == RunStatus::Cancelled {
            return Ok(run);
        }
        let ci = match self.conversation_position(turn.conversation_id) {
            Some(ci) => ci,
            None => {
                return Err(AppError::not_found("conversation not found"));
            },
        };
        let c = self.conversations[ci].copy();
        proof {
            lemma_counter_bound(s0.event_counters, c.id, 0x1000_0000_0000_0000);
            assert(s0.turns[ti as int].cancel_version < 0x1000_0000_0000_0000);
        }
        let now = utc_now_micros();
        let version = turn.cancel_version + 1;
        let cancelled_turn = Turn { status: TurnStatus::Cancelled, cancel_version: version, updated_at: now, ..turn };
        let cancelled_run = Run { status: RunStatus::Cancelled, cancel_version: version, updated_at: now, ..run };
        self.put_turn(cancelled_turn);
        self.put_run(cancelled_run.copy());
        let ghost mid = self@;
        self.emit(
            &c,
            "run.cancelled",
            Some(turn_id),
            Some(rid),
            EventPayload::RunCancelled { run_id: rid, cancel_version: version },
        );
        proof {
            assert(self@.events.drop_last() =~= mid.events);
        }
        Ok(cancelled_run)
    }

    /// The terminal step of a run that produced a storable answer.
    #[verifier::rlimit(40)]
    fn record_answer(&mut self, i: usize, ci: usize, ti: usize, text: String, metadata: String) -> (tr: RunTransition)
        requires
            old(self)@.wf(),
            old(self)@.has_room(),
            i < old(self)@.runs.len(),
            ci < old(self)@.conversations.len(),
            ti < old(self)@.turns.len(),
            old(self)@.conversations[ci as int].id == old(self)@.runs[i as int].conversation_id,
            old(self)@.turns[ti as int].id == old(self)@.runs[i as int].turn_id,
        ensures
            final(self)@.wf(),
            ({
                let old = old(self)@;
                let new = final(self)@;
                let run = old.runs[i as int];
                let c = old.conversations[ci as int];
                let t = old.turns[ti as int];
                let now = tr.run.updated_at;
                let c2 = Conversation { revision: (c.revision + 1) as u64, updated_at: now, ..c };
                let base = counter_of(old.event_counters, c.id) as int;
                let added = new.events.skip(old.events.len() as int);
                &&& only_run_state_changed(old, new)
                &&& new.conversations == put(old.conversations, conversation_is(c.id), c2)
                &&& new.runs == put(old.runs, run_is(run.id), tr.run)
                &&& new.turns == put(old.turns, turn_is(t.id), tr.turn)
                &&& appends_events(old, new)
                &&& new.event_counters == put(old.event_counters, counter_is(c.id), (c.id, (base + added.len()) as u64))
                &&& tr.run == Run { status: RunStatus::Succeeded, error: None, updated_at: now, ..run }
                &&& tr.turn == Turn { status: TurnStatus::Succeeded, updated_at: now, ..t }
                &&& tr.message matches Some(m) && m@ == MessageV {
                    id: m.id,
                    conversation_id: c.id,
                    operator_id: c.operator_id,
                    tenant_id: c.tenant_id,
                    project_id: c.project_id,
                    turn_id: Some(run.turn_id),
                    role: MessageRole::Assistant,
                    content: text@,
                    attachments: Seq::empty(),
                    metadata: metadata@,
                    sequence: (counter_of(old.message_counters, c.id) + 1) as u64,
                    created_at: now,
                } && new.messages == put(old.messages, message_is(m.id), m@)
                &&& new.message_counters == put(
                    old.message_counters,
                    counter_is(c.id),
                    (c.id, (counter_of(old.message_counters, c.id) + 1) as u64),
                )
                &&& added.len() == 2
                &&& tr.message matches Some(m) && event_fits(
                    added[0],
                    c2,
                    base + 1,
                    "message.created"@,
                    Some(t.id),
                    Some(run.id),
                    PayloadV::MessageCreated { message: m@ },
                )
                &&& event_fits(
                    added[1],
                    c2,
                    base + 2,
                    "run.succeeded"@,
                    Some(t.id),
                    Some(run.id),
                    PayloadV::RunSucceeded { run_id: run.id, status: RunStatus::Succeeded },
                )
            }),
    {
        let ghost s0 = self@;
        let run = self.runs[i].copy();
        let c = self.conversations[ci].copy();
        let t = self.turns[ti].copy();
        proof {
            lemma_counter_bound(s0.event_counters, c.id, 0x1000_0000_0000_0000);
            lemma_counter_bound(s0.message_counters, c.id, 0x1000_0000_0000_0000);
            assert(s0.conversations[ci as int].revision < 0x1000_0000_0000_0000);
        }
        let ghost base = counter_of(s0.event_counters, c.id) as int;
        let now = utc_now_micros();
        let finished = Run { status: RunStatus::Succeeded, error: None, updated_at: now, ..run };
        let turn = Turn { status: TurnStatus::Succeeded, updated_at: now, ..t };
        let conversation = Conversation { revision: c.revision + 1, updated_at: now, ..c };
        self.put_run(finished.copy());
        self.put_turn(turn.copy());
        self.put_conversation(conversation.copy());
        let message_id = self.fresh_message_id();
        let ghost before_bump = self@;
        let sequence = bump_counter(&mut self.message_counters, c.id);
        let message = Message {
            id: message_id,
            conversation_id: c.id,
            operator_id: c.operator_id,
            tenant_id: c.tenant_id,
            project_id: c.project_id,
            turn_id: Some(run.turn_id),
            role: MessageRole::Assistant,
            content: text,
            attachments: Vec::new(),
            metadata,
            sequence,
            created_at: now,
        };
        assert(message@.attachments =~= Seq::<crate::agent::AttachmentReference>::empty());
        proof {
            lemma_counted_after_bump(before_bump.message_counters, self@.message_counters, before_bump.messages, message@);
        }
        self.put_message(message.copy());
        let ghost s2 = self@;
        self.emit(
            &conversation,
            "message.created",
            Some(turn.id),
            Some(finished.id),
            EventPayload::MessageCreated { message: message.copy() },
        );
        let ghost e1 = self@.events.last();
        self.emit(
            &conversation,
            "run.succeeded",
            Some(turn.id),
            Some(finished.id),
            EventPayload::RunSucceeded { run_id: finished.id, status: RunStatus::Succeeded },
        );
        let ghost e2 = self@.events.last();
        proof {
            let s4 = self@;
            assert(s4.events =~= s2.events.push(e1).push(e2));
            assert(s4.events.skip(s0.events.len() as int) =~= seq![e1, e2]);
            assert(s4.events.take(s0.events.len() as int) =~= s0.events);
            assert(s4.outbox =~= s0.outbox + s4.events.skip(s0.events.len() as int));
            lemma_unique_key_at_most_one(s0.event_counters, |x: (ConversationId, u64)| x.0, counter_is(c.id), c.id);
            lemma_put_put(
                s0.event_counters,
                counter_is(c.id),
                (c.id, (base + 1) as u64),
                (c.id, (base + 2) as u64),
            );
        }
        RunTransition { run: finished, turn, message: Some(message) }
    }

    /// The terminal step of a run that failed, or whose answer could not be
    /// stored.
    #[verifier::rlimit(40)]
    fn record_failure(&mut self, i: usize, ci: usize, ti: usize, error: AppError) -> (tr: RunTransition)
        requires
            old(self)@.wf(),
            old(self)@.has_room(),
            i < old(self)@.runs.len(),
            ci < old(self)@.conversations.len(),
            ti < old(self)@.turns.len(),
            old(self)@.conversations[ci as int].id == old(self)@.runs[i as int].conversation_id,
            old(self)@.turns[ti as int].id == old(self)@.runs[i as int].turn_id,
        ensures
            final(self)@.wf(),
            ({
                let old = old(self)@;
                let new = final(self)@;
                let run = old.runs[i as int];
                let c = old.conversations[ci as int];
                let t = old.turns[ti as int];
                let now = tr.run.updated_at;
                let c2 = Conversation { revision: (c.revision + 1) as u64, updated_at: now, ..c };
                let base = counter_of(old.event_counters, c.id) as int;
                let added = new.events.skip(old.events.len() as int);
                &&& only_run_state_changed(old, new)
                &&& new.conversations == put(old.conversations, conversation_is(c.id), c2)
                &&& new.runs == put(old.runs, run_is(run.id), tr.run)
                &&& new.turns == put(old.turns, turn_is(t.id), tr.turn)
                &&& appends_events(old, new)
                &&& new.event_counters == put(old.event_counters, counter_is(c.id), (c.id, (base + added.len()) as u64))
                &&& tr.run.status == RunStatus::Failed
                &&& tr.run == Run { status: RunStatus::Failed, error: Some(error), updated_at: now, ..run }
                &&& event_fits(
                    added[0],
                    c2,
                    base + 1,
                    "run.failed"@,
                    Some(t.id),
                    Some(run.id),
                    PayloadV::RunFailed { run_id: run.id, status: RunStatus::Failed, error },
                )
                &&& tr.turn == Turn { status: TurnStatus::Failed, updated_at: now, ..t }
                &&& tr.message is None
                &&& new.messages == old.messages
                &&& new.message_counters == old.message_counters
                &&& added.len() == 1
            }),
    {
        let ghost s0 = self@;
        let run = self.runs[i].copy();
        let c = self.conversations[ci].copy();
        let t = self.turns[ti].copy();
        proof {
            lemma_counter_bound(s0.event_counters, c.id, 0x1000_0000_0000_0000);
            assert(s0.conversations[ci as int].revision < 0x1000_0000_0000_0000);
        }
        let now = utc_now_micros();
        let finished = Run { status: RunStatus::Failed, error: Some(error.copy()), updated_at: now, ..run };
        let turn = Turn { status: TurnStatus::Failed, updated_at: now, ..t };
        let conversation = Conversation { revision: c.revision + 1, updated_at: now, ..c };
        self.put_run(finished.copy());
        self.put_turn(turn.copy());
        self.put_conversation(conversation.copy());
        let ghost s2 = self@;
        self.emit(
            &conversation,
            "run.failed",
            Some(turn.id),
            Some(finished.id),
            EventPayload::RunFailed { run_id: finished.id, status: RunStatus::Failed, error },
        );
        let ghost e1 = self@.events.last();
        proof {
            let s4 = self@;
            assert(s4.events =~= s2.events.push(e1));
            assert(s4.events.skip(s0.events.len() as int) =~= seq![e1]);
            assert(s4.events.take(s0.events.len() as int) =~= s0.events);
            assert(s4.outbox =~= s0.outbox + s4.events.skip(s0.events.len() as int));
        }
        RunTransition { run: finished, turn, message: None }
    }

    /// Records a run's terminal outcome with its turn and, on success, its
    /// one assistant message.  `None` means the run was not running (a
    /// cancellation got there first) and nothing was written.
    pub fn finish_run(&mut self, scope: &TenantScope, run_id: RunId, completion: RunCompletion) -> (r: Result<
        Option<RunTransition>,
        AppError,
    >)
        requires
            old(self)@.wf(),
            old(self)@.has_room(),
        ensures
            submissions_kept(old(self)@, final(self)@),
            final(self)@.wf(),
            finish_outcome(old(self)@, final(self)@, *scope, run_id, completion, result_view(r)),
    {
        let i = match self.run_position(run_id) {
            Some(i) => i,
            None => {
                return Ok(None);
            },
        };
        if !scope.contains(&self.runs[i].scope()) || self.runs[i].status != RunStatus::Running {
            return Ok(None);
        }
        let ci = match self.conversation_position(self.runs[i].conversation_id) {
            Some(ci) => ci,
            None => {
                return Err(AppError::not_found("conversation not found"));
            },
        };
        let ti = match self.turn_position(self.runs[i].turn_id) {
            Some(ti) => ti,
            None => {
                return Err(AppError::not_found("turn not found"));
            },
        };
        let outcome = match completion {
            RunCompletion::Succeeded { content, metadata } => match validate_message_content(content.as_str()) {
                Ok(text) => Ok((text, metadata)),
                Err(e) => Err(e),
            },
            RunCompletion::Failed { error } => Err(error),
        };
        match outcome {
            Ok((text, metadata)) => Ok(Some(self.record_answer(i, ci, ti, text, metadata))),
            Err(error) => Ok(Some(self.record_failure(i, ci, ti, error))),
        }
    }

    fn conversation_keys(&self, scope: &TenantScope) -> (ks: Vec<(i128, u128, usize)>)
        ensures
            keys_of_places(self@.conversations, seen_by(*scope), conversation_rank(), ks@),
    {
        let ghost s = self@.conversations;
        let mut ks: Vec<(i128, u128, usize)> = Vec::new();
        let mut i: usize = 0;
        while i < self.conversations.len()
            invariant
                i <= self.conversations.len(),
                s == self.conversations@,
                keys_of_places(s.take(i as int), seen_by(*scope), conversation_rank(), ks@),
            decreases self.conversations.len() - i,
        {
            let c = &self.conversations[i];
            let keep = scope.contains(&c.scope());
            let ghost before = ks@;
            if keep {
                ks.push((-(c.updated_at as i128), c.id.0, i));
            }
            proof {
                lemma_keys_of_places_step(s, seen_by(*scope), conversation_rank(), before, i as int, keep, ks@);
            }
            i += 1;
        }
        assert(s.take(s.len() as int) =~= s);
        ks
    }

    /// The conversations `scope` sees, most recently updated first.
    pub fn list_conversations(&self, scope: &TenantScope) -> (r: Vec<Conversation>)
        requires
            self@.wf(),
        ensures
            is_sorted_listing(self@.conversations, seen_by(*scope), conversation_rank(), r@),
            no_repeats(r@),
    {
        let ghost s = self@.conversations;
        let ks = self.conversation_keys(scope);
        let sorted = sort_keys(ks);
        proof {
            lemma_keys_of_places_sorted(s, seen_by(*scope), conversation_rank(), ks@, sorted@);
        }
        let mut out: Vec<Conversation> = Vec::new();
        let mut k: usize = 0;
        while k < sorted.len()
            invariant
                k <= sorted.len(),
                s == self.conversations@,
                keys_of_places(s, seen_by(*scope), conversation_rank(), sorted@),
                out@.len() == k,
                forall|m: int| 0 <= m < k ==> #[trigger] out@[m] == s[sorted@[m].2 as int],
            decreases sorted.len() - k,
        {
            assert(sorted@[k as int].2 < s.len());
            out.push(self.conversations[sorted[k].2].copy());
            k += 1;
        }
        proof {
            assert(s.len() == self.conversations.len());
            lemma_listing_from_keys(s, seen_by(*scope), conversation_rank(), sorted@, out@);
            assert forall|a: int, b: int| 0 <= a < s.len() && 0 <= b < s.len() && #[trigger] s[a] == #[trigger] s[b] implies a
                == b by {
                assert(s[a].id == s[b].id);
            }
        }
        out
    }

    fn message_keys(&self, id: ConversationId) -> (ks: Vec<(i128, u128, usize)>)
        ensures
            keys_of_places(self@.messages, message_of(id), message_rank(), ks@),
    {
        let ghost s = self@.messages;
        let mut ks: Vec<(i128, u128, usize)> = Vec::new();
        let mut i: usize = 0;
        while i < self.messages.len()
            invariant
                i <= self.messages.len(),
                s == message_views(self.messages@),
                keys_of_places(s.take(i as int), message_of(id), message_rank(), ks@),
            decreases self.messages.len() - i,
        {
            let m = &self.messages[i];
            assert(s[i as int] == m@);
            let keep = m.conversation_id == id;
            let ghost before = ks@;
            if keep {
                ks.push((m.sequence as i128, 0u128, i));
            }
            proof {
                lemma_keys_of_places_step(s, message_of(id), message_rank(), before, i as int, keep, ks@);
            }
            i += 1;
        }
        assert(s.take(s.len() as int) =~= s);
        ks
    }

    fn turn_keys(&self, id: ConversationId) -> (ks: Vec<(i128, u128, usize)>)
        ensures
            keys_of_places(self@.turns, turn_of(id), turn_rank(), ks@),
    {
        let ghost s = self@.turns;
        let mut ks: Vec<(i128, u128, usize)> = Vec::new();
        let mut i: usize = 0;
        while i < self.turns.len()
            invariant
                i <= self.turns.len(),
                s == self.turns@,
                keys_of_places(s.take(i as int), turn_of(id), turn_rank(), ks@),
            decreases self.turns.len() - i,
        {
            let t = &self.turns[i];
            let keep = t.conversation_id == id;
            let ghost before = ks@;
            if keep {
                ks.push((t.created_at as i128, 0u128, i));
            }
            proof {
                lemma_keys_of_places_step(s, turn_of(id), turn_rank(), before, i as int, keep, ks@);
            }
            i += 1;
        }
        assert(s.take(s.len() as int) =~= s);
        ks
    }

    fn run_keys(&self, id: ConversationId) -> (ks: Vec<(i128, u128, usize)>)
        ensures
            keys_of_places(self@.runs, run_of(id), run_rank(), ks@),
    {
        let ghost s = self@.runs;
        let mut ks: Vec<(i128, u128, usize)> = Vec::new();
        let mut i: usize = 0;
        while i < self.runs.len()
            invariant
                i <= self.runs.len(),
                s == self.runs@,
                keys_of_places(s.take(i as int), run_of(id), run_rank(), ks@),
            decreases self.runs.len() - i,
        {
            let r = &self.runs[i];
            let keep = r.conversation_id == id;
            let ghost before = ks@;
            if keep {
                ks.push((r.created_at as i128, 0u128, i));
            }
            proof {
                lemma_keys_of_places_step(s, run_of(id), run_rank(), before, i as int, keep, ks@);
            }
            i += 1;
        }
        assert(s.take(s.len() as int) =~= s);
        ks
    }

    fn conversation_messages(&self, id: ConversationId) -> (r: Vec<Message>)
        requires
            self@.wf(),
        ensures
            is_sorted_listing(self@.messages, message_of(id), message_rank(), message_views(r@)),
            no_repeats(message_views(r@)),
    {
        let ghost s = self@.messages;
        let ks = self.message_keys(id);
        let sorted = sort_keys(ks);
        proof {
            lemma_keys_of_places_sorted(s, message_of(id), message_rank(), ks@, sorted@);
        }
        let mut out: Vec<Message> = Vec::new();
        let mut k: usize = 0;
        while k < sorted.len()
            invariant
                k <= sorted.len(),
                s == message_views(self.messages@),
                keys_of_places(s, message_of(id), message_rank(), sorted@),
                out@.len() == k,
                forall|m: int| 0 <= m < k ==> (#[trigger] out@[m])@ == s[sorted@[m].2 as int],
            decreases sorted.len() - k,
        {
            assert(sorted@[k as int].2 < s.len());
            out.push(self.messages[sorted[k].2].copy());
            k += 1;
        }
        proof {
            let rv = message_views(out@);
            assert forall|m: int| 0 <= m < rv.len() implies #[trigger] rv[m] == s[sorted@[m].2 as int] by {
                assert(rv[m] == out@[m]@);
            }
            assert(s.len() == self.messages.len());
            lemma_listing_from_keys(s, message_of(id), message_rank(), sorted@, rv);
            assert forall|a: int, b: int| 0 <= a < s.len() && 0 <= b < s.len() && #[trigger] s[a] == #[trigger] s[b] implies a
                == b by {
                assert(s[a].id == s[b].id);
            }
        }
        out
    }

    fn conversation_turns(&self, id: ConversationId) -> (r: Vec<Turn>)
        requires
            self@.wf(),
        ensures
            is_sorted_listing(self@.turns, turn_of(id), turn_rank(), r@),
            no_repeats(r@),
    {
        let ghost s = self@.turns;
        let ks = self.turn_keys(id);
        let sorted = sort_keys(ks);
        proof {
            lemma_keys_of_places_sorted(s, turn_of(id), turn_rank(), ks@, sorted@);
        }
        let mut out: Vec<Turn> = Vec::new();
        let mut k: usize = 0;
        while k < sorted.len()
            invariant
                k <= sorted.len(),
                s == self.turns@,
                keys_of_places(s, turn_of(id), turn_rank(), sorted@),
                out@.len() == k,
                forall|m: int| 0 <= m < k ==> #[trigger] out@[m] == s[sorted@[m].2 as int],
            decreases sorted.len() - k,
        {
            assert(sorted@[k as int].2 < s.len());
            out.push(self.turns[sorted[k].2].copy());
            k += 1;
        }
        proof {
            assert(s.len() == self.turns.len());
            lemma_listing_from_keys(s, turn_of(id), turn_rank(), sorted@, out@);
            assert forall|a: int, b: int| 0 <= a < s.len() && 0 <= b < s.len() && #[trigger] s[a] == #[trigger] s[b] implies a
                == b by {
                assert(s[a].id == s[b].id);
            }
        }
        out
    }

    fn conversation_runs(&self, id: ConversationId) -> (r: Vec<Run>)
        requires
            self@.wf(),
        ensures
            is_sorted_listing(self@.runs, run_of(id), run_rank(), r@),
            no_repeats(r@),
    {
        let ghost s = self@.runs;
        let ks = self.run_keys(id);
        let sorted = sort_keys(ks);
        proof {
            lemma_keys_of_places_sorted(s, run_of(id), run_rank(), ks@, sorted@);
        }
        let mut out: Vec<Run> = Vec::new();
        let mut k: usize = 0;
        while k < sorted.len()
            invariant
                k <= sorted.len(),
                s == self.runs@,
                keys_of_places(s, run_of(id), run_rank(), sorted@),
                out@.len() == k,
                forall|m: int| 0 <= m < k ==> #[trigger] out@[m] == s[sorted@[m].2 as int],
            decreases sorted.len() - k,
        {
            assert(sorted@[k as int].2 < s.len());
            out.push(self.runs[sorted[k].2].copy());
            k += 1;
        }
        proof {
            assert(s.len() == self.runs.len());
            lemma_listing_from_keys(s, run_of(id), run_rank(), sorted@, out@);
            assert forall|a: int, b: int| 0 <= a < s.len() && 0 <= b < s.len() && #[trigger] s[a] == #[trigger] s[b] implies a
                == b by {
                assert(s[a].id == s[b].id);
            }
        }
        out
    }

    /// A visible conversation with its messages in sequence order and its
    /// turns and runs in order of creation.
    pub fn get_conversation(&self, scope: &TenantScope, id: ConversationId) -> (r: Option<ConversationDetail>)
        requires
            self@.wf(),
        ensures
            match find(self@.conversations, conversation_is(id)) {
                Some(c) => if sees(*scope, c) {
                    r matches Some(d) && d.conversation == c && is_sorted_listing(
                        self@.messages,
                        message_of(id),
                        message_rank(),
                        message_views(d.messages@),
                    ) && no_repeats(message_views(d.messages@)) && is_sorted_listing(
                        self@.turns,
                        turn_of(id),
                        turn_rank(),
                        d.turns@,
                    ) && no_repeats(d.turns@) && is_sorted_listing(self@.runs, run_of(id), run_rank(), d.runs@)
                        && no_repeats(d.runs@)
                } else {
                    r is None
                },
                None => r is None,
            },
    {
        let i = match self.conversation_position(id) {
            Some(i) => i,
            None => {
                return None;
            },
        };
        let c = &self.conversations[i];
        if !scope.contains(&c.scope()) {
            return None;
        }
        Some(
            ConversationDetail {
                conversation: c.copy(),
                messages: self.conversation_messages(id),
                turns: self.conversation_turns(id),
                runs: self.conversation_runs(id),
            },
        )
    }

    /// The events of a visible conversation after sequence number `after`
    /// (all of them when `after` is `None`), in order.
    pub fn replay_events(&self, scope: &TenantScope, conversation_id: ConversationId, after: Option<u64>) -> (r: Result<
        Vec<ConversationEvent>,
        AppError,
    >)
        requires
            self@.wf(),
        ensures
            match find(self@.conversations, conversation_is(conversation_id)) {
                Some(c) => if sees(*scope, c) {
                    r matches Ok(v) && event_views(v@) == events_after(
                        self@.events,
                        conversation_id,
                        match after {
                            Some(a) => a,
                            None => 0,
                        },
                    )
                } else {
                    result_view(r) == Err::<Vec<ConversationEvent>, ErrorV>(conversation_not_found())
                },
                None => result_view(r) == Err::<Vec<ConversationEvent>, ErrorV>(conversation_not_found()),
            },
    {
        let i = match self.conversation_position(conversation_id) {
            Some(i) => i,
            None => {
                return Err(AppError::not_found("conversation not found"));
            },
        };
        if !scope.contains(&self.conversations[i].scope()) {
            return Err(AppError::not_found("conversation not found"));
        }
        let floor = match after {
            Some(a) => a,
            None => 0,
        };
        let ghost es = self@.events;
        let mut out: Vec<ConversationEvent> = Vec::new();
        let mut k: usize = 0;
        while k < self.events.len()
            invariant
                k <= self.events.len(),
                es == event_views(self.events@),
                event_views(out@) == events_after(es.take(k as int), conversation_id, floor),
            decreases self.events.len() - k,
        {
            let e = &self.events[k];
            assert(es[k as int] == e@);
            assert(es.take(k + 1).drop_last() =~= es.take(k as int));
            assert(es.take(k + 1).last() == e@);
            if e.conversation_id == conversation_id && e.sequence > floor {
                let ghost before = out@;
                out.push(e.copy());
                assert(event_views(out@) =~= event_views(before).push(e@));
            }
            k += 1;
        }
        assert(es.take(es.len() as int) =~= es);
        Ok(out)
    }

    fn checkpoint_position(&self, run_id: RunId, checkpoint_scope: &str, step_key: &str) -> (r: Option<usize>)
        requires
            self@.wf(),
        ensures
            match r {
                Some(i) => i < self@.checkpoints.len() && exists_in(
                    self@.checkpoints,
                    checkpoint_is(run_id, checkpoint_scope@, step_key@),
                ) && pick(self@.checkpoints, checkpoint_is(run_id, checkpoint_scope@, step_key@)) == i,
                None => !exists_in(self@.checkpoints, checkpoint_is(run_id, checkpoint_scope@, step_key@)),
            },
    {
        let ghost s = self@.checkpoints;
        let ghost p = checkpoint_is(run_id, checkpoint_scope@, step_key@);
        proof {
            lemma_unique_key_at_most_one(
                s,
                |c: AgentCheckpoint| (c.run_id, c.checkpoint_scope@, c.step_key@),
                p,
                (run_id, checkpoint_scope@, step_key@),
            );
        }
        let mut i: usize = 0;
        while i < self.checkpoints.len()
            invariant
                i <= self.checkpoints.len(),
                s == self.checkpoints@,
                p == checkpoint_is(run_id, checkpoint_scope@, step_key@),
                at_most_one(s, p),
                forall|k: int| 0 <= k < i ==> !p(#[trigger] s[k]),
            decreases self.checkpoints.len() - i,
        {
            let c = &self.checkpoints[i];
            if c.run_id == run_id && str_eq(c.checkpoint_scope.as_str(), checkpoint_scope) && str_eq(
                c.step_key.as_str(),
                step_key,
            ) {
                proof {
                    assert(p(s[i as int]));
                    let j = pick(s, p);
                    assert(p(s[j]));
                }
                return Some(i);
            }
            i += 1;
        }
        proof {
            if exists_in(s, p) {
                let j = pick(s, p);
                assert(p(s[j]));
            }
        }
        None
    }

    fn visible_run_position(&self, scope: &TenantScope, run_id: RunId) -> (r: Option<usize>)
        requires
            self@.wf(),
        ensures
            match r {
                Some(i) => i < self@.runs.len() && visible_run(self@, *scope, run_id) == Some(self@.runs[i as int]),
                None => visible_run(self@, *scope, run_id) is None,
            },
    {
        match self.run_position(run_id) {
            Some(i) => {
                if scope.contains(&self.runs[i].scope()) {
                    Some(i)
                } else {
                    None
                }
            },
            None => None,
        }
    }

    /// Stores or refreshes one step checkpoint of a visible run.
    pub fn store_checkpoint(&mut self, scope: &TenantScope, run_id: RunId, checkpoint: StoreCheckpoint) -> (r: Result<
        AgentCheckpoint,
        AppError,
    >)
        requires
            old(self)@.wf(),
            old(self)@.has_room(),
        ensures
            submissions_kept(old(self)@, final(self)@),
            final(self)@.wf(),
            checkpoint_outcome(old(self)@, final(self)@, *scope, run_id, checkpoint, result_view(r)),
    {
        validate_checkpoint_write(&checkpoint)?;
        let ri = match self.visible_run_position(scope, run_id) {
            Some(ri) => ri,
            None => {
                return Err(AppError::not_found("run not found"));
            },
        };
        let run = self.runs[ri].copy();
        let ghost s = self@.checkpoints;
        let ghost p = checkpoint_is(run.id, checkpoint.checkpoint_scope@, checkpoint.step_key@);
        let now = utc_now_micros();
        let position = self.checkpoint_position(
            run.id,
            checkpoint.checkpoint_scope.as_str(),
            checkpoint.step_key.as_str(),
        );
        let stored = match position {
            Some(k) => {
                let existing = self.checkpoints[k].copy();
                if !str_eq(existing.input_hash.as_str(), checkpoint.input_hash.as_str()) {
                    return Err(AppError::conflict("checkpoint was already stored for a different input"));
                }
                proof {
                    assert(s[k as int].version < 0x1000_0000_0000_0000);
                }
                AgentCheckpoint {
                    result_ref: checkpoint.result_ref,
                    state: checkpoint.state,
                    version: existing.version + 1,
                    updated_at: now,
                    ..existing
                }
            },
            None => AgentCheckpoint {
                id: CheckpointId::new(new_uuid()),
                run_id: run.id,
                conversation_id: run.conversation_id,
                operator_id: run.operator_id,
                tenant_id: run.tenant_id,
                project_id: run.project_id,
                checkpoint_scope: checkpoint.checkpoint_scope,
                step_key: checkpoint.step_key,
                input_hash: checkpoint.input_hash,
                result_ref: checkpoint.result_ref,
                version: 1,
                state: checkpoint.state,
                created_at: now,
                updated_at: now,
            },
        };
        let ghost sv = stored;
        match position {
            Some(k) => {
                self.checkpoints.set(k, stored.copy());
                assert(self@.checkpoints =~= s.update(k as int, sv));
            },
            None => {
                self.checkpoints.push(stored.copy());
                assert(self@.checkpoints =~= s.push(sv));
            },
        }
        proof {
            if position is Some {
                assert(p(s[pick(s, p)]));
            }
            assert forall|y: AgentCheckpoint| #[trigger] p(y) <==> (y.run_id, y.checkpoint_scope@, y.step_key@) == (
                sv.run_id,
                sv.checkpoint_scope@,
                sv.step_key@,
            ) by {}
            lemma_put_keeps_keys_unique(s, |c: AgentCheckpoint| (c.run_id, c.checkpoint_scope@, c.step_key@), p, sv);
            assert(self@.messages =~= old(self)@.messages);
            assert(self@.events =~= old(self)@.events);
            assert(self@.submissions =~= old(self)@.submissions);
            assert(self@.outbox =~= old(self)@.outbox);
        }
        Ok(stored)
    }

    /// The checkpoint of a visible run for one scope and step, if stored.
    pub fn load_checkpoint(&self, scope: &TenantScope, run_id: RunId, checkpoint_scope: &str, step_key: &str) -> (r:
        Result<Option<AgentCheckpoint>, AppError>)
        requires
            self@.wf(),
        ensures
            match visible_run(self@, *scope, run_id) {
                None => result_view(r) == Err::<Option<AgentCheckpoint>, ErrorV>(run_not_found()),
                Some(_) => r == Ok::<Option<AgentCheckpoint>, AppError>(
                    find(self@.checkpoints, checkpoint_is(run_id, checkpoint_scope@, step_key@)),
                ),
            },
    {
        match self.visible_run_position(scope, run_id) {
            Some(_) => {},
            None => {
                return Err(AppError::not_found("run not found"));
            },
        }
        match self.checkpoint_position(run_id, checkpoint_scope, step_key) {
            Some(k) => Ok(Some(self.checkpoints[k].copy())),
            None => Ok(None),
        }
    }

    fn tool_call_position(&self, run_id: RunId, tool_call_id: &str) -> (r: Option<usize>)
        requires
            self@.wf(),
        ensures
            match r {
                Some(i) => i < self@.tool_calls.len() && exists_in(self@.tool_calls, tool_call_is(run_id, tool_call_id@))
                    && pick(self@.tool_calls, tool_call_is(run_id, tool_call_id@)) == i,
                None => !exists_in(self@.tool_calls, tool_call_is(run_id, tool_call_id@)),
            },
    {
        let ghost s = self@.tool_calls;
        let ghost p = tool_call_is(run_id, tool_call_id@);
        proof {
            lemma_unique_key_at_most_one(
                s,
                |e: ToolCallLedgerEntry| (e.run_id, e.tool_call_id@),
                p,
                (run_id, tool_call_id@),
            );
        }
        let mut i: usize = 0;
        while i < self.tool_calls.len()
            invariant
                i <= self.tool_calls.len(),
                s == self.tool_calls@,
                p == tool_call_is(run_id, tool_call_id@),
                at_most_one(s, p),
                forall|k: int| 0 <= k < i ==> !p(#[trigger] s[k]),
            decreases self.tool_calls.len() - i,
        {
            let e = &self.tool_calls[i];
            if e.run_id == run_id && str_eq(e.tool_call_id.as_str(), tool_call_id) {
                proof {
                    assert(p(s[i as int]));
                    let j = pick(s, p);
                    assert(p(s[j]));
                }
                return Some(i);
            }
            i += 1;
        }
        proof {
            if exists_in(s, p) {
                let j = pick(s, p);
                assert(p(s[j]));
            }
        }
        None
    }

    /// Appends one tool-call ledger entry to a visible run.  The same tool
    /// call may be replayed with the same digests, never with other ones.
    pub fn append_tool_call(&mut self, scope: &TenantScope, input: RecordToolCall) -> (r: Result<
        ToolCallLedgerEntry,
        AppError,
    >)
        requires
            old(self)@.wf(),
        ensures
            submissions_kept(old(self)@, final(self)@),
            final(self)@.wf(),
            tool_call_outcome(old(self)@, final(self)@, *scope, input, result_view(r)),
    {
        validate_tool_call_write(&input)?;
        let ri = match self.visible_run_position(scope, input.run_id) {
            Some(ri) => ri,
            None => {
                return Err(AppError::not_found("run not found"));
            },
        };
        let run = self.runs[ri].copy();
        let ghost s = self@.tool_calls;
        let ghost p = tool_call_is(run.id, input.tool_call_id@);
        match self.tool_call_position(run.id, input.tool_call_id.as_str()) {
            Some(k) => {
                let existing = &self.tool_calls[k];
                if !str_eq(existing.arguments_hash.as_str(), input.arguments_hash.as_str())
                    || !str_eq(existing.idempotency_key_hash.as_str(), input.idempotency_key_hash.as_str()) {
                    return Err(AppError::conflict("tool call was already recorded with different arguments"));
                }
                return Ok(existing.copy());
            },
            None => {},
        }
        let now = utc_now_micros();
        let entry = ToolCallLedgerEntry {
            id: ToolCallLedgerId::new(new_uuid()),
            run_id: run.id,
            turn_id: run.turn_id,
            conversation_id: run.conversation_id,
            operator_id: run.operator_id,
            tenant_id: run.tenant_id,
            project_id: run.project_id,
            tool_call_id: input.tool_call_id,
            tool_name: input.tool_name,
            arguments_hash: input.arguments_hash,
            idempotency_key_hash: input.idempotency_key_hash,
            permission: input.permission,
            budget: input.budget,
            intent: input.intent,
            attempt_count: input.attempt_count,
            result_ref: input.result_ref,
            outcome: input.outcome,
            cost_minor: input.cost_minor,
            currency: input.currency,
            created_at: now,
            updated_at: now,
        };
        let ghost ev = entry;
        self.tool_calls.push(entry.copy());
        proof {
            assert(self@.tool_calls =~= s.push(ev));
            assert forall|y: ToolCallLedgerEntry| #[trigger] p(y) <==> (y.run_id, y.tool_call_id@) == (
                ev.run_id,
                ev.tool_call_id@,
            ) by {}
            lemma_put_keeps_keys_unique(s, |e: ToolCallLedgerEntry| (e.run_id, e.tool_call_id@), p, ev);
            assert(self@.messages =~= old(self)@.messages);
            assert(self@.events =~= old(self)@.events);
            assert(self@.submissions =~= old(self)@.submissions);
            assert(self@.outbox =~= old(self)@.outbox);
        }
        Ok(entry)
    }

    fn entry_keys(&self, run_id: RunId) -> (ks: Vec<(i128, u128, usize)>)
        ensures
            keys_of_places(self@.tool_calls, entry_of(run_id), entry_rank(), ks@),
    {
        let ghost s = self@.tool_calls;
        let mut ks: Vec<(i128, u128, usize)> = Vec::new();
        let mut i: usize = 0;
        while i < self.tool_calls.len()
            invariant
                i <= self.tool_calls.len(),
                s == self.tool_calls@,
                keys_of_places(s.take(i as int), entry_of(run_id), entry_rank(), ks@),
            decreases self.tool_calls.len() - i,
        {
            let e = &self.tool_calls[i];
            let keep = e.run_id == run_id;
            let ghost before = ks@;
            if keep {
                ks.push((e.created_at as i128, e.id.0, i));
            }
            proof {
                lemma_keys_of_places_step(s, entry_of(run_id), entry_rank(), before, i as int, keep, ks@);
            }
            i += 1;
        }
        assert(s.take(s.len() as int) =~= s);
        ks
    }

    /// The ledger of a visible run, oldest entry first and then by id.
    pub fn list_tool_calls(&self, scope: &TenantScope, run_id: RunId) -> (r: Result<Vec<ToolCallLedgerEntry>, AppError>)
        requires
            self@.wf(),
        ensures
            match visible_run(self@, *scope, run_id) {
                None => result_view(r) == Err::<Vec<ToolCallLedgerEntry>, ErrorV>(run_not_found()),
                Some(_) => r matches Ok(v) && is_sorted_listing(self@.tool_calls, entry_of(run_id), entry_rank(), v@)
                    && no_repeats(v@),
            },
    {
        match self.visible_run_position(scope, run_id) {
            Some(_) => {},
            None => {
                return Err(AppError::not_found("run not found"));
            },
        }
        let ghost s = self@.tool_calls;
        let ks = self.entry_keys(run_id);
        let sorted = sort_keys(ks);
        proof {
            lemma_keys_of_places_sorted(s, entry_of(run_id), entry_rank(), ks@, sorted@);
        }
        let mut out: Vec<ToolCallLedgerEntry> = Vec::new();
        let mut k: usize = 0;
        while k < sorted.len()
            invariant
                k <= sorted.len(),
                s == self.tool_calls@,
                keys_of_places(s, entry_of(run_id), entry_rank(), sorted@),
                out@.len() == k,
                forall|m: int| 0 <= m < k ==> #[trigger] out@[m] == s[sorted@[m].2 as int],
            decreases sorted.len() - k,
        {
            assert(sorted@[k as int].2 < s.len());
            out.push(self.tool_calls[sorted[k].2].copy());
            k += 1;
        }
        proof {
            assert(s.len() == self.tool_calls.len());
            lemma_listing_from_keys(s, entry_of(run_id), entry_rank(), sorted@, out@);
            assert forall|a: int, b: int| 0 <= a < s.len() && 0 <= b < s.len() && #[trigger] s[a] == #[trigger] s[b] implies a
                == b by {
                assert((s[a].run_id, s[a].tool_call_id@) == (s[b].run_id, s[b].tool_call_id@));
            }
        }
        Ok(out)
    }

    fn conversation_position(&self, id: ConversationId) -> (r: Option<usize>)
        requires
            self@.wf(),
        ensures
            match r {
                Some(i) => i < self@.conversations.len() && self@.conversations[i as int].id == id && exists_in(
                    self@.conversations,
                    conversation_is(id),
                ) && pick(self@.conversations, conversation_is(id)) == i,
                None => !exists_in(self@.conversations, conversation_is(id)),
            },
    {
        let ghost s = self@.conversations;
        let mut i: usize = 0;
        while i < self.conversations.len()
            invariant
                i <= self.conversations.len(),
                s == self.conversations@,
                keys_unique(s, |c: Conversation| c.id),
                forall|k: int| 0 <= k < i ==> (#[trigger] s[k]).id != id,
            decreases self.conversations.len() - i,
        {
            if self.conversations[i].id == id {
                proof {
                    assert(conversation_is(id)(s[i as int]));
                    let j = pick(s, conversation_is(id));
                    assert(conversation_is(id)(s[j]));
                }
                return Some(i);
            }
            i += 1;
        }
        proof {
            if exists_in(s, conversation_is(id)) {
                let j = pick(s, conversation_is(id));
                assert(conversation_is(id)(s[j]));
            }
        }
        None
    }

    fn turn_position(&self, id: TurnId) -> (r: Option<usize>)
        requires
            self@.wf(),
        ensures
            match r {
                Some(i) => i < self@.turns.len() && self@.turns[i as int].id == id && exists_in(self@.turns, turn_is(id))
                    && pick(self@.turns, turn_is(id)) == i,
                None => !exists_in(self@.turns, turn_is(id)),
            },
    {
        let ghost s = self@.turns;
        let mut i: usize = 0;
        while i < self.turns.len()
            invariant
                i <= self.turns.len(),
                s == self.turns@,
                keys_unique(s, |t: Turn| t.id),
                forall|k: int| 0 <= k < i ==> (#[trigger] s[k]).id != id,
            decreases self.turns.len() - i,
        {
            if self.turns[i].id == id {
                proof {
                    assert(turn_is(id)(s[i as int]));
                    let j = pick(s, turn_is(id));
                    assert(turn_is(id)(s[j]));
                }
                return Some(i);
            }
            i += 1;
        }
        proof {
            if exists_in(s, turn_is(id)) {
                let j = pick(s, turn_is(id));
                assert(turn_is(id)(s[j]));
            }
        }
        None
    }

    fn run_position(&self, id: RunId) -> (r: Option<usize>)
        requires
            self@.wf(),
        ensures
            match r {
                Some(i) => i < self@.runs.len() && self@.runs[i as int].id == id && exists_in(self@.runs, run_is(id)) && pick(
                    self@.runs,
                    run_is(id),
                ) == i,
                None => !exists_in(self@.runs, run_is(id)),
            },
    {
        let ghost s = self@.runs;
        let mut i: usize = 0;
        while i < self.runs.len()
            invariant
                i <= self.runs.len(),
                s == self.runs@,
                keys_unique(s, |r: Run| r.id),
                forall|k: int| 0 <= k < i ==> (#[trigger] s[k]).id != id,
            decreases self.runs.len() - i,
        {
            if self.runs[i].id == id {
                proof {
                    assert(run_is(id)(s[i as int]));
                    let j = pick(s, run_is(id));
                    assert(run_is(id)(s[j]));
                }
                return Some(i);
            }
            i += 1;
        }
        proof {
            if exists_in(s, run_is(id)) {
                let j = pick(s, run_is(id));
                assert(run_is(id)(s[j]));
            }
        }
        None
    }
}

} // verus!
