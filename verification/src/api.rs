//! What the HTTP handlers decide: project start identities and commands,
//! side-effect-free estimates, operation records and events, the import of a
//! project's initial sources, and the body of an error response.

use vstd::prelude::*;
use vstd::string::StringExecFns;
use crate::auth::{DEFAULT_SESSION_TTL_SECS, Membership, Operator, Role, User};
use crate::clock::utc_now_micros;
use crate::context::{HeaderField, DEV_SESSION_COOKIE_NAME, SESSION_COOKIE_NAME};
use crate::digest::{sha256, sha256_digest, sha256_hex, sha256_hex_text, utf8};
use crate::error::{code_name, is_retryable, status_of, AppError, ErrorCode, ErrorV, err};
use crate::ids::{new_uuid, uuid_value, scope_key_text, uuid_parse, OperatorId, ProjectId, TenantId, TenantScope, UserId};
use crate::knowledge::{ImportAcceptance, ImportBatchAcceptance, ImportItem, KnowledgePurpose, SourceKind};
use crate::knowledge_store::{batch_outcome, acceptance_views, project_required, result_view, visible, source_seen, keys, KnowledgeStoreV, MemoryKnowledgeRepository};
use crate::operation::{Operation, OperationResult, OperationStatus};
use crate::project::{InitialSource, InitialSourceKind, InitialSourceVisibility, ProjectSettings, ProjectStartAcceptance, ProjectStartCommand};
use crate::rules::{invalid, text_result};
use crate::text::{opt_text, take_chars, trim, trimmed};

verus! {

// ---------------------------------------------------------------------------
// Project starts.
// ---------------------------------------------------------------------------

/// The key of an idempotent command: the header's text, trimmed, not empty.
pub open spec fn key_rule(header: HeaderField) -> Result<Seq<char>, ErrorV> {
    match header {
        HeaderField::Missing => Err(invalid("missing Idempotency-Key header"@)),
        HeaderField::Unreadable => Err(invalid("invalid Idempotency-Key header"@)),
        HeaderField::Text(v) => if trimmed(v@).len() == 0 {
            Err(invalid("Idempotency-Key must not be empty"@))
        } else {
            Ok(trimmed(v@))
        },
    }
}

pub fn idempotency_key(header: &HeaderField) -> (r: Result<String, AppError>)
    ensures
        text_result(r) == key_rule(*header),
{
    match header {
        HeaderField::Missing => Err(AppError::invalid_request("missing Idempotency-Key header")),
        HeaderField::Unreadable => Err(AppError::invalid_request("invalid Idempotency-Key header")),
        HeaderField::Text(v) => {
            let t = trim(v.as_str());
            if t.unicode_len() == 0 {
                Err(AppError::invalid_request("Idempotency-Key must not be empty"))
            } else {
                Ok(t.to_owned())
            }
        },
    }
}

/// The big-endian value of a byte string.
pub open spec fn be_value(b: Seq<u8>) -> nat
    decreases b.len(),
{
    if b.len() == 0 {
        0
    } else {
        be_value(b.drop_last()) * 256 + b.last() as nat
    }
}

pub open spec fn pow256(n: nat) -> nat
    decreases n,
{
    if n == 0 {
        1
    } else {
        256 * pow256((n - 1) as nat)
    }
}

proof fn lemma_be_value_bound(b: Seq<u8>)
    ensures
        be_value(b) < pow256(b.len()),
    decreases b.len(),
{
    if b.len() > 0 {
        lemma_be_value_bound(b.drop_last());
        let v = be_value(b.drop_last());
        let p = pow256(b.drop_last().len());
        assert(v * 256 + 255 < p * 256) by (nonlinear_arith)
            requires
                v < p,
        ;
    }
}

/// The bytes hashed for a start's operation id: a fixed label, the scope's
/// storage key, a zero byte and the idempotency key.
pub open spec fn start_id_input(scope: TenantScope, key: Seq<char>) -> Seq<u8> {
    utf8("geo.project.start.v1\0"@) + utf8(scope_key_text(scope)) + seq![0u8] + utf8(key)
}

/// The first sixteen bytes of a digest with the UUID version (5) and
/// variant bits set.
pub open spec fn uuid_v5_bytes(d: Seq<u8>) -> Seq<u8> {
    d.take(16).update(6, (d[6] & 0x0f) | 0x50).update(8, (d[8] & 0x3f) | 0x80)
}

pub open spec fn start_operation_id(scope: TenantScope, key: Seq<char>) -> u128 {
    be_value(uuid_v5_bytes(sha256(start_id_input(scope, key)))) as u128
}

/// The stable operation id of a project start: the same scope, project and
/// key give the same id, without keeping the key itself.
pub fn project_start_operation_id(scope: &TenantScope, idempotency_key: &str) -> (id: u128)
    ensures
        id == start_operation_id(*scope, idempotency_key@),
        be_value(uuid_v5_bytes(sha256(start_id_input(*scope, idempotency_key@)))) < 0x1_0000_0000_0000_0000_0000_0000_0000_0000,
{
    let label = "geo.project.start.v1\0";
    let key_text = scope.storage_key();
    let mut data: Vec<u8> = Vec::new();
    data.extend_from_slice(label.as_bytes());
    data.extend_from_slice(key_text.as_str().as_bytes());
    data.push(0u8);
    data.extend_from_slice(idempotency_key.as_bytes());
    assert(data@ =~= start_id_input(*scope, idempotency_key@));
    let digest = sha256_digest(data.as_slice());
    let ghost d = digest@;
    let mut bytes: Vec<u8> = Vec::new();
    let mut i: usize = 0;
    while i < 16
        invariant
            i <= 16,
            digest@ == d,
            d.len() == 32,
            bytes@ == d.take(i as int),
        decreases 16 - i,
    {
        bytes.push(digest[i]);
        assert(d.take(i + 1) =~= d.take(i as int).push(d[i as int]));
        i += 1;
    }
    let b6 = (bytes[6] & 0x0f) | 0x50;
    bytes.set(6, b6);
    let b8 = (bytes[8] & 0x3f) | 0x80;
    bytes.set(8, b8);
    let ghost u = bytes@;
    assert(u =~= uuid_v5_bytes(d));
    let mut value: u128 = 0;
    let mut k: usize = 0;
    proof {
        assert(u.take(0) =~= Seq::<u8>::empty());
        assert(pow256(16) == 0x1_0000_0000_0000_0000_0000_0000_0000_0000) by {
            reveal_with_fuel(pow256, 17);
        }
    }
    while k < 16
        invariant
            k <= 16,
            bytes@ == u,
            u.len() == 16,
            value as nat == be_value(u.take(k as int)),
            pow256(16) == 0x1_0000_0000_0000_0000_0000_0000_0000_0000,
        decreases 16 - k,
    {
        proof {
            assert(u.take(k + 1).drop_last() =~= u.take(k as int));
            lemma_be_value_bound(u.take(k + 1));
            lemma_pow256_mono((k + 1) as nat, 16);
        }
        value = value * 256 + bytes[k] as u128;
        k += 1;
    }
    proof {
        assert(u.take(16) =~= u);
        lemma_be_value_bound(u);
    }
    value
}

proof fn lemma_pow256_mono(a: nat, b: nat)
    requires
        a <= b,
    ensures
        pow256(a) <= pow256(b),
    decreases b,
{
    if a < b {
        lemma_pow256_mono(a, (b - 1) as nat);
    }
}

/// Two starts with the same scope and key have the same operation id.
pub proof fn lemma_start_id_deterministic(a: TenantScope, b: TenantScope, key: Seq<char>)
    requires
        a == b,
    ensures
        start_operation_id(a, key) == start_operation_id(b, key),
{
}

/// The hexadecimal SHA-256 of the JSON form of a project's settings.
pub fn settings_hash(settings_json: &[u8]) -> (h: String)
    ensures
        h@ == sha256_hex_text(settings_json@),
{
    sha256_hex(settings_json)
}

/// The start command for a project: the expected revision, the key's
/// digest, the request digest over project, revision and settings digest,
/// and the operation id.
pub fn start_command(
    project_id: ProjectId,
    expected_revision: i64,
    idempotency_key: &str,
    settings_hash: String,
    operation_id: u128,
) -> (c: ProjectStartCommand)
    ensures
        c.expected_revision == expected_revision,
        c.idempotency_key_hash@ == sha256_hex_text(utf8(idempotency_key@)),
        c.request_hash@ == sha256_hex_text(
            utf8(crate::project::start_request_text(project_id, expected_revision, settings_hash@)),
        ),
        c.settings_hash@ == settings_hash@,
        c.operation_id == operation_id,
{
    let request_hash = crate::project::start_request_hash(project_id, expected_revision, settings_hash.as_str());
    ProjectStartCommand {
        expected_revision,
        idempotency_key_hash: crate::project::hash_idempotency_key(idempotency_key),
        request_hash,
        settings_hash,
        operation_id,
    }
}

/// The operation record of an accepted start, queued under the start's
/// operation id with the acceptance as its result.
pub fn start_operation(scope: TenantScope, acceptance: &ProjectStartAcceptance) -> (op: Operation)
    ensures
        op.id == acceptance.operation_id,
        op.kind@ == "project.start"@,
        op.status == OperationStatus::Queued,
        op.scope == scope,
        op.result == Some(OperationResult::ProjectStart(*acceptance)),
        op.error is None,
{
    let mut op = Operation::queued(String::from_str("project.start"), scope);
    op.id = acceptance.operation_id;
    op.result = Some(OperationResult::ProjectStart(acceptance.copy()));
    proof {
        reveal_strlit("project.start");
    }
    op
}

// ---------------------------------------------------------------------------
// Events and operations.
// ---------------------------------------------------------------------------

/// An event as the outbox and the event feed carry it.
#[derive(Debug)]
pub struct EventEnvelope {
    pub event_id: u128,
    pub event_type: String,
    pub schema_version: u32,
    pub operator_id: OperatorId,
    pub tenant_id: TenantId,
    pub project_id: Option<ProjectId>,
    pub cycle_id: Option<u128>,
    pub aggregate_id: u128,
    pub aggregate_version: u64,
    /// Microseconds since the Unix epoch.
    pub occurred_at: i64,
    pub correlation_id: u128,
    pub causation_id: Option<u128>,
    pub payload_ref: Option<String>,
}

impl EventEnvelope {
    /// A first-version event of `scope` about an aggregate, happening now.
    pub fn new(event_type: String, scope: TenantScope, aggregate_id: u128, aggregate_version: u64, correlation_id: u128) -> (e: Self)
        ensures
            e.event_type == event_type,
            e.schema_version == 1,
            e.operator_id == scope.operator_id && e.tenant_id == scope.tenant_id && e.project_id == scope.project_id,
            e.cycle_id is None && e.causation_id is None && e.payload_ref is None,
            e.aggregate_id == aggregate_id && e.aggregate_version == aggregate_version,
            e.correlation_id == correlation_id,
    {
        EventEnvelope {
            event_id: new_uuid(),
            event_type,
            schema_version: 1,
            operator_id: scope.operator_id,
            tenant_id: scope.tenant_id,
            project_id: scope.project_id,
            cycle_id: None,
            aggregate_id,
            aggregate_version,
            occurred_at: utc_now_micros(),
            correlation_id,
            causation_id: None,
            payload_ref: None,
        }
    }

    pub fn scope(&self) -> (s: TenantScope)
        ensures
            s == (TenantScope { operator_id: self.operator_id, tenant_id: self.tenant_id, project_id: self.project_id }),
    {
        TenantScope::new(self.operator_id, self.tenant_id, self.project_id)
    }
}

/// The event announcing the cycle an accepted start created.
pub fn cycle_created_event(scope: TenantScope, acceptance: &ProjectStartAcceptance) -> (e: EventEnvelope)
    ensures
        e.event_type@ == "cycle.created"@,
        e.operator_id == scope.operator_id && e.tenant_id == scope.tenant_id && e.project_id == scope.project_id,
        e.aggregate_id == acceptance.cycle_id && e.aggregate_version == 1,
        e.correlation_id == acceptance.operation_id,
{
    proof {
        reveal_strlit("cycle.created");
    }
    EventEnvelope::new(String::from_str("cycle.created"), scope, acceptance.cycle_id, 1, acceptance.operation_id)
}

/// A development operation store; operations are kept by id.
#[derive(Debug)]
pub struct MemoryOperationStore {
    operations: Vec<Operation>,
}

impl View for MemoryOperationStore {
    type V = Seq<Operation>;

    closed spec fn view(&self) -> Seq<Operation> {
        self.operations@
    }
}

/// The operation stored under `id`, the last one saved with that id.
pub open spec fn operation_with(s: Seq<Operation>, id: u128) -> Option<Operation>
    decreases s.len(),
{
    if s.len() == 0 {
        None
    } else if s.last().id == id {
        Some(s.last())
    } else {
        operation_with(s.drop_last(), id)
    }
}

impl MemoryOperationStore {
    pub fn new() -> (s: Self)
        ensures
            s@.len() == 0,
    {
        MemoryOperationStore { operations: Vec::new() }
    }

    /// Keeps an operation; a later one with the same id replaces it.
    pub fn insert(&mut self, operation: Operation)
        ensures
            forall|id: u128| #[trigger] operation_with(final(self)@, id) == if id == operation.id {
                Some(operation)
            } else {
                operation_with(old(self)@, id)
            },
    {
        let ghost before = self@;
        let ghost op = operation;
        self.operations.push(operation);
        assert(self@.drop_last() =~= before);
        assert(self@.last() == op);
    }

    /// Forgets every operation.
    pub fn clear(&mut self)
        ensures
            final(self)@.len() == 0,
    {
        self.operations = Vec::new();
    }

    /// The operation with this id.
    pub fn get(&self, id: u128) -> (r: Result<Option<Operation>, AppError>)
        ensures
            r matches Ok(found) && found == operation_with(self@, id),
    {
        let ghost s = self@;
        let mut i: usize = self.operations.len();
        assert(s.take(i as int) =~= s);
        while i > 0
            invariant
                i <= self.operations.len(),
                s == self@,
                operation_with(s, id) == operation_with(s.take(i as int), id),
            decreases i,
        {
            proof {
                assert(s.take(i as int).drop_last() =~= s.take(i - 1));
                assert(s.take(i as int).last() == s[i - 1]);
            }
            if self.operations[i - 1].id == id {
                return Ok(Some(self.operations[i - 1].copy()));
            }
            i -= 1;
        }
        assert(s.take(0) =~= Seq::<Operation>::empty());
        Ok(None)
    }
}

/// What recording an import acceptance does in memory mode: its operation is
/// kept, and a release it made is announced.
pub fn record_acceptance(operations: &mut MemoryOperationStore, durable: bool, scope: TenantScope, acceptance: &ImportAcceptance) -> (event: Option<EventEnvelope>)
    ensures
        forall|id: u128| #[trigger] operation_with(final(operations)@, id) == match (durable, acceptance.operation) {
            (false, Some(op)) => if id == op.id {
                Some(op)
            } else {
                operation_with(old(operations)@, id)
            },
            _ => operation_with(old(operations)@, id),
        },
        match acceptance.release {
            Some(rel) => event matches Some(e) && e.event_type@ == "knowledge.release.created"@ && e.operator_id
                == scope.operator_id && e.tenant_id == scope.tenant_id && e.project_id == scope.project_id && e.aggregate_id
                == rel.knowledge_release_id && e.aggregate_version == rel.sequence as u64 && e.correlation_id == match acceptance.operation {
                Some(op) => op.id,
                None => rel.knowledge_release_id,
            },
            None => event is None,
        },
{
    if !durable {
        match &acceptance.operation {
            Some(op) => operations.insert(op.copy()),
            None => {},
        }
    }
    match &acceptance.release {
        Some(rel) => {
            proof {
                reveal_strlit("knowledge.release.created");
            }
            let correlation = match &acceptance.operation {
                Some(op) => op.id,
                None => rel.knowledge_release_id,
            };
            Some(
                EventEnvelope::new(
                    String::from_str("knowledge.release.created"),
                    scope,
                    rel.knowledge_release_id,
                    rel.sequence as u64,
                    correlation,
                ),
            )
        },
        None => None,
    }
}

// ---------------------------------------------------------------------------
// Estimates.
// ---------------------------------------------------------------------------

#[derive(Debug, Clone, Copy, PartialEq, Eq, Structural)]
pub enum EstimateState {
    Unknown,
    Estimated,
    Frozen,
}

#[derive(Debug)]
pub struct CountEstimate {
    pub state: EstimateState,
    pub value: Option<u64>,
    pub min: Option<u64>,
    pub max: Option<u64>,
    pub basis_refs: Vec<String>,
    pub reason: Option<String>,
}

#[derive(Debug)]
pub struct MoneyEstimate {
    pub state: EstimateState,
    pub value_minor: Option<i64>,
    pub min_minor: Option<i64>,
    pub max_minor: Option<i64>,
    pub basis_refs: Vec<String>,
    pub reason: Option<String>,
}

#[derive(Debug)]
pub struct EstimateCoverage {
    pub documents: CountEstimate,
    pub document_platform_targets: CountEstimate,
    pub measurement_samples: CountEstimate,
}

#[derive(Debug)]
pub struct EstimateCosts {
    pub phase_one_documents: MoneyEstimate,
    pub phase_two_distribution: MoneyEstimate,
    pub measurement: MoneyEstimate,
    pub total: MoneyEstimate,
}

#[derive(Debug)]
pub struct EstimateBudget {
    pub currency: String,
    pub monthly_limit_minor: i64,
    pub measurement_reserve_minor: i64,
}

#[derive(Debug)]
pub struct EstimateBlocker {
    pub code: String,
    pub scope: String,
    pub reason: String,
}

#[derive(Debug)]
pub struct ProjectEstimateResponse {
    pub settings_hash: String,
    pub estimator_version: String,
    pub pricing_snapshot_id: Option<String>,
    pub capability_snapshot_id: Option<String>,
    pub coverage: EstimateCoverage,
    pub costs: EstimateCosts,
    pub budget: EstimateBudget,
    pub blockers: Vec<EstimateBlocker>,
    pub assumptions: Vec<String>,
}

/// A count nobody can estimate yet, and why.
pub open spec fn count_unknown(c: CountEstimate, reason: Seq<char>) -> bool {
    &&& c.state == EstimateState::Unknown
    &&& c.value is None && c.min is None && c.max is None
    &&& c.basis_refs@.len() == 0
    &&& c.reason matches Some(r) && r@ == reason
}

/// An amount nobody can estimate yet, and why.
pub open spec fn money_unknown(m: MoneyEstimate, reason: Seq<char>) -> bool {
    &&& m.state == EstimateState::Unknown
    &&& m.value_minor is None && m.min_minor is None && m.max_minor is None
    &&& m.basis_refs@.len() == 0
    &&& m.reason matches Some(r) && r@ == reason
}

pub open spec fn blocker_is(b: EstimateBlocker, code: Seq<char>, scope: Seq<char>, reason: Seq<char>) -> bool {
    b.code@ == code && b.scope@ == scope && b.reason@ == reason
}

/// The share of the monthly budget held back for measurement, rounded down.
pub open spec fn reserve_of(monthly: i64, percent: u8) -> int {
    (monthly as int * percent as int) / 100
}

fn unknown_count(reason: &str) -> (c: CountEstimate)
    ensures
        count_unknown(c, reason@),
{
    CountEstimate {
        state: EstimateState::Unknown,
        value: None,
        min: None,
        max: None,
        basis_refs: Vec::new(),
        reason: Some(reason.to_owned()),
    }
}

fn unknown_money(reason: &str) -> (m: MoneyEstimate)
    ensures
        money_unknown(m, reason@),
{
    MoneyEstimate {
        state: EstimateState::Unknown,
        value_minor: None,
        min_minor: None,
        max_minor: None,
        basis_refs: Vec::new(),
        reason: Some(reason.to_owned()),
    }
}

fn blocker(code: &str, scope: &str, reason: &str) -> (b: EstimateBlocker)
    ensures
        blocker_is(b, code@, scope@, reason@),
{
    EstimateBlocker { code: code.to_owned(), scope: scope.to_owned(), reason: reason.to_owned() }
}

/// The side-effect-free estimate of a project with validated `settings`
/// whose JSON digest is `settings_hash`: every count and cost is unknown,
/// with its reason and the four blockers; only the budget is known.
pub fn estimate_project(settings: &ProjectSettings, settings_hash: String) -> (r: ProjectEstimateResponse)
    requires
        settings.monthly_budget_minor >= 0,
        settings.monitoring_reserve_percent <= 100,
    ensures
        r.settings_hash@ == settings_hash@,
        r.estimator_version@ == "w02-prerequisites-unknown-v1"@,
        r.pricing_snapshot_id is None && r.capability_snapshot_id is None,
        count_unknown(r.coverage.documents, "KnowledgeRelease is not available; document manifest is not frozen."@),
        count_unknown(
            r.coverage.document_platform_targets,
            "CapabilitySnapshot is not available; distribution targets are not expanded."@,
        ),
        count_unknown(
            r.coverage.measurement_samples,
            "MeasurementProtocol is not available; measurement samples are not planned."@,
        ),
        money_unknown(r.costs.phase_one_documents, "PricingSnapshot and frozen document denominator are unavailable."@),
        money_unknown(
            r.costs.phase_two_distribution,
            "PricingSnapshot, CapabilitySnapshot, and distribution denominator are unavailable."@,
        ),
        money_unknown(r.costs.measurement, "PricingSnapshot and MeasurementProtocol are unavailable."@),
        money_unknown(r.costs.total, "Component costs are not known."@),
        r.budget.currency@ == settings.budget_currency@,
        r.budget.monthly_limit_minor == settings.monthly_budget_minor,
        r.budget.measurement_reserve_minor == reserve_of(settings.monthly_budget_minor, settings.monitoring_reserve_percent),
        r.blockers@.len() == 4,
        blocker_is(
            r.blockers@[0],
            "knowledge_release_unavailable"@,
            "documents"@,
            "W02 has not resolved immutable knowledge inputs."@,
        ),
        blocker_is(
            r.blockers@[1],
            "capability_snapshot_unavailable"@,
            "document_platform_targets"@,
            "No eligible platform/account capability snapshot is frozen."@,
        ),
        blocker_is(
            r.blockers@[2],
            "measurement_protocol_unavailable"@,
            "measurement_samples"@,
            "No measurement protocol or sample plan is frozen."@,
        ),
        blocker_is(r.blockers@[3], "pricing_snapshot_unavailable"@, "costs"@, "No applicable price list snapshot is frozen."@),
        r.assumptions@.len() == 2,
        r.assumptions@[0]@ == "Estimate is side-effect free: it creates no project, reservation, or task."@,
        r.assumptions@[1]@ == "Zero budget permits later free knowledge work but must block paid actions."@,
{
    let monthly = settings.monthly_budget_minor as i128;
    let percent = settings.monitoring_reserve_percent as i128;
    assert(0 <= monthly * percent <= 0x7fff_ffff_ffff_ffff * 100) by (nonlinear_arith)
        requires
            0 <= monthly <= 0x7fff_ffff_ffff_ffff,
            0 <= percent <= 100,
    ;
    let product: i128 = monthly * percent;
    let reserve_wide: i128 = product / 100;
    assert(reserve_wide <= settings.monthly_budget_minor) by (nonlinear_arith)
        requires
            product == settings.monthly_budget_minor as i128 * settings.monitoring_reserve_percent as i128,
            reserve_wide == product / 100,
            settings.monthly_budget_minor >= 0,
            settings.monitoring_reserve_percent <= 100,
    ;
    assert(reserve_wide >= 0) by (nonlinear_arith)
        requires
            product == settings.monthly_budget_minor as i128 * settings.monitoring_reserve_percent as i128,
            reserve_wide == product / 100,
            settings.monthly_budget_minor >= 0,
    ;
    let reserve = reserve_wide as i64;
    let mut blockers: Vec<EstimateBlocker> = Vec::new();
    blockers.push(
        blocker("knowledge_release_unavailable", "documents", "W02 has not resolved immutable knowledge inputs."),
    );
    blockers.push(
        blocker(
            "capability_snapshot_unavailable",
            "document_platform_targets",
            "No eligible platform/account capability snapshot is frozen.",
        ),
    );
    blockers.push(
        blocker("measurement_protocol_unavailable", "measurement_samples", "No measurement protocol or sample plan is frozen."),
    );
    blockers.push(blocker("pricing_snapshot_unavailable", "costs", "No applicable price list snapshot is frozen."));
    let mut assumptions: Vec<String> = Vec::new();
    assumptions.push(String::from_str("Estimate is side-effect free: it creates no project, reservation, or task."));
    assumptions.push(String::from_str("Zero budget permits later free knowledge work but must block paid actions."));
    ProjectEstimateResponse {
        settings_hash,
        estimator_version: String::from_str("w02-prerequisites-unknown-v1"),
        pricing_snapshot_id: None,
        capability_snapshot_id: None,
        coverage: EstimateCoverage {
            documents: unknown_count("KnowledgeRelease is not available; document manifest is not frozen."),
            document_platform_targets: unknown_count(
                "CapabilitySnapshot is not available; distribution targets are not expanded.",
            ),
            measurement_samples: unknown_count("MeasurementProtocol is not available; measurement samples are not planned."),
        },
        costs: EstimateCosts {
            phase_one_documents: unknown_money("PricingSnapshot and frozen document denominator are unavailable."),
            phase_two_distribution: unknown_money(
                "PricingSnapshot, CapabilitySnapshot, and distribution denominator are unavailable.",
            ),
            measurement: unknown_money("PricingSnapshot and MeasurementProtocol are unavailable."),
            total: unknown_money("Component costs are not known."),
        },
        budget: EstimateBudget {
            currency: settings.budget_currency.clone(),
            monthly_limit_minor: settings.monthly_budget_minor,
            measurement_reserve_minor: reserve,
        },
        blockers,
        assumptions,
    }
}

// ---------------------------------------------------------------------------
// Health, authentication configuration and session views.
// ---------------------------------------------------------------------------

#[derive(Debug, Clone, Copy)]
pub struct HealthResponse {
    pub status: &'static str,
    pub service: &'static str,
    pub durable_storage: bool,
}

impl HealthResponse {
    /// The process is alive, whatever its stores.
    pub fn live(durable_storage: bool) -> (h: Self)
        ensures
            h.status@ == "ok"@ && h.service@ == "geo-api"@ && h.durable_storage == durable_storage,
    {
        proof {
            reveal_strlit("ok");
            reveal_strlit("geo-api");
        }
        HealthResponse { status: "ok", service: "geo-api", durable_storage }
    }

    /// `ok` once the service is ready, `not_ready` before.
    pub fn ready(durable_storage: bool, is_ready: bool) -> (h: Self)
        ensures
            h.status@ == (if is_ready { "ok"@ } else { "not_ready"@ }),
            h.service@ == "geo-api"@,
            h.durable_storage == durable_storage,
    {
        proof {
            reveal_strlit("ok");
            reveal_strlit("not_ready");
            reveal_strlit("geo-api");
        }
        HealthResponse { status: if is_ready { "ok" } else { "not_ready" }, service: "geo-api", durable_storage }
    }
}

#[derive(Debug)]
pub struct LoginRequest {
    pub login_name: String,
    pub password: String,
}

#[derive(Debug, Clone, Copy)]
pub struct AuthConfigResponse {
    pub mode: &'static str,
    pub session_cookie_name: &'static str,
    pub csrf_header: &'static str,
    pub tenant_selector_query: &'static str,
    pub tenant_selector_header: &'static str,
    pub same_origin_required: bool,
    pub session_ttl_seconds: i64,
    pub development_login_name: Option<&'static str>,
}

impl AuthConfigResponse {
    /// How clients authenticate: persistent mode with the `__Host-` cookie,
    /// or development mode with its own cookie and the demo login.
    pub fn for_storage(durable_storage: bool) -> (c: Self)
        ensures
            c.mode@ == (if durable_storage { "persistent"@ } else { "development"@ }),
            c.session_cookie_name@ == (if durable_storage { "__Host-geo_session"@ } else { "geo_dev_session"@ }),
            c.csrf_header@ == "x-csrf-token"@,
            c.tenant_selector_query@ == "tenant_id"@,
            c.tenant_selector_header@ == "x-tenant-selector"@,
            c.same_origin_required,
            c.session_ttl_seconds == 43200,
            match c.development_login_name {
                Some(n) => !durable_storage && n@ == crate::auth::development_user_email(),
                None => durable_storage,
            },
    {
        proof {
            reveal_strlit("persistent");
            reveal_strlit("development");
            reveal_strlit("__Host-geo_session");
            reveal_strlit("geo_dev_session");
            reveal_strlit("x-csrf-token");
            reveal_strlit("tenant_id");
            reveal_strlit("x-tenant-selector");
            reveal_strlit("demo@localhost");
        }
        AuthConfigResponse {
            mode: if durable_storage { "persistent" } else { "development" },
            session_cookie_name: if durable_storage { SESSION_COOKIE_NAME } else { DEV_SESSION_COOKIE_NAME },
            csrf_header: "x-csrf-token",
            tenant_selector_query: "tenant_id",
            tenant_selector_header: "x-tenant-selector",
            same_origin_required: true,
            session_ttl_seconds: DEFAULT_SESSION_TTL_SECS,
            development_login_name: if durable_storage { None } else { Some("demo@localhost") },
        }
    }
}

#[derive(Debug)]
pub struct MembershipView {
    pub tenant_id: TenantId,
    pub tenant_slug: String,
    pub tenant_display_name: String,
    pub role: String,
}

#[derive(Debug)]
pub struct UserView {
    pub id: UserId,
    pub login_name: String,
    pub display_name: String,
}

#[derive(Debug)]
pub struct OperatorView {
    pub id: OperatorId,
    pub slug: String,
    pub display_name: String,
}

#[derive(Debug)]
pub struct AuthSessionResponse {
    pub user: UserView,
    pub operator: OperatorView,
    pub memberships: Vec<MembershipView>,
    /// Microseconds since the Unix epoch.
    pub expires_at: i64,
    pub csrf_token: String,
}

/// The name a role is shown under to clients.
pub open spec fn role_label(role: Role) -> Seq<char> {
    match role {
        Role::CustomerAdmin => "tenant_admin"@,
        Role::CustomerMember => "member"@,
        Role::CustomerReadOnly => "viewer"@,
        Role::Operator => "operator_agent"@,
        Role::ResourceAdmin => "resource_admin"@,
        Role::OemAdmin => "operator_admin"@,
    }
}

pub fn user_view(user: &User) -> (v: UserView)
    ensures
        v.id == user@.id && v.login_name@ == user@.email && v.display_name@ == user@.display_name,
{
    UserView { id: user.id_of(), login_name: user.email_text(), display_name: user.display_name_text() }
}

pub fn operator_view(operator: &Operator) -> (v: OperatorView)
    ensures
        v.id == operator.id && v.slug@ == operator.slug@ && v.display_name@ == operator.display_name@,
{
    OperatorView { id: operator.id, slug: operator.slug.clone(), display_name: operator.display_name.clone() }
}

pub fn membership_view(membership: Membership) -> (v: MembershipView)
    ensures
        v.tenant_id == membership.tenant_id && v.tenant_slug@ == membership.tenant_slug@
            && v.tenant_display_name@ == membership.tenant_display_name@ && v.role@ == role_label(membership.role),
{
    let role = match membership.role {
        Role::CustomerAdmin => "tenant_admin",
        Role::CustomerMember => "member",
        Role::CustomerReadOnly => "viewer",
        Role::Operator => "operator_agent",
        Role::ResourceAdmin => "resource_admin",
        Role::OemAdmin => "operator_admin",
    };
    proof {
        reveal_strlit("tenant_admin");
        reveal_strlit("member");
        reveal_strlit("viewer");
        reveal_strlit("operator_agent");
        reveal_strlit("resource_admin");
        reveal_strlit("operator_admin");
    }
    MembershipView {
        tenant_id: membership.tenant_id,
        tenant_slug: membership.tenant_slug,
        tenant_display_name: membership.tenant_display_name,
        role: role.to_owned(),
    }
}

/// The body a project start carries.
#[derive(Debug, Clone, Copy)]
pub struct ProjectStartRequest {
    pub expected_revision: i64,
}

/// The project a knowledge request is about.
#[derive(Debug, Clone, Copy)]
pub struct KnowledgeProjectQuery {
    pub project_id: ProjectId,
}

/// The items of an import request.
#[derive(Debug)]
pub struct ImportBatchRequest {
    pub items: Vec<ImportItem>,
}

/// The API's description document.
#[derive(Debug, Clone, Copy)]
pub struct ApiDoc;

// ---------------------------------------------------------------------------
// Error bodies.
// ---------------------------------------------------------------------------

#[derive(Debug)]
pub struct ErrorResponse {
    pub code: ErrorCode,
    pub message: String,
    pub field: Option<String>,
    pub retryable: bool,
    pub details: Option<crate::error::ErrorDetails>,
    pub request_id: u128,
}

/// The status and body of an error response: the code's status, the field
/// the details name, whether a retry may help, and the request's id (a fresh
/// one when the request has none).
pub fn error_response(error: AppError, request_id: Option<u128>) -> (r: (u16, ErrorResponse))
    ensures
        r.0 == status_of(error.code),
        r.1.code == error.code,
        r.1.message@ == error@.message,
        r.1.retryable == is_retryable(error.code),
        match error@.details {
            Some((f, m)) => (r.1.field matches Some(x) && x@ == f) && (r.1.details matches Some(d) && d.field@ == f && d.max == m),
            None => r.1.field is None && r.1.details is None,
        },
        request_id matches Some(id) ==> r.1.request_id == id,
{
    let id = match request_id {
        Some(id) => id,
        None => new_uuid(),
    };
    let status = error.code.default_status();
    let retryable = error.code.retryable();
    let field = match &error.details {
        Some(d) => Some(d.field.clone()),
        None => None,
    };
    (status, ErrorResponse { code: error.code, message: error.message, field, retryable, details: error.details, request_id: id })
}

// ---------------------------------------------------------------------------
// Initial sources.
// ---------------------------------------------------------------------------

pub open spec fn kind_for(k: InitialSourceKind) -> SourceKind {
    match k {
        InitialSourceKind::Text => SourceKind::Text,
        InitialSourceKind::Url => SourceKind::Url,
        InitialSourceKind::Object => SourceKind::Object,
        InitialSourceKind::KnowledgeCollection => SourceKind::KnowledgeCollection,
    }
}

pub open spec fn purpose_for(v: InitialSourceVisibility) -> KnowledgePurpose {
    match v {
        InitialSourceVisibility::Public => KnowledgePurpose::Public,
        InitialSourceVisibility::Internal => KnowledgePurpose::Internal,
    }
}

/// The import item of an initial source whose JSON form is `encoded`: keyed
/// by the digest of that form, named by the first 120 characters of its
/// value, carrying the value as text, URL, object id or release id by kind.
pub open spec fn item_fits(item: ImportItem, source: InitialSource, encoded: Seq<u8>) -> bool {
    let v = source.value@;
    &&& item.client_item_id@ == "initial:"@ + sha256_hex_text(encoded)
    &&& item.kind == kind_for(source.kind)
    &&& item.name@ == (if 120 <= v.len() { v.take(120) } else { v })
    &&& item.purpose == purpose_for(source.visibility)
    &&& opt_text(item.text) == (if source.kind == InitialSourceKind::Text { Some(v) } else { None })
    &&& opt_text(item.url) == (if source.kind == InitialSourceKind::Url { Some(v) } else { None })
    &&& item.object_id == (if source.kind == InitialSourceKind::Object { uuid_parse(v) } else { None })
    &&& item.knowledge_release_id == (if source.kind == InitialSourceKind::KnowledgeCollection {
        match source.version_ref {
            Some(r) => uuid_parse(r@),
            None => None,
        }
    } else {
        None
    })
}

pub fn initial_import_item(source: &InitialSource, encoded: &[u8]) -> (item: ImportItem)
    ensures
        item_fits(item, *source, encoded@),
{
    let digest = sha256_hex(encoded);
    let client_item_id = String::from_str("initial:").concat(digest.as_str());
    proof {
        reveal_strlit("initial:");
    }
    let name = take_chars(source.value.as_str(), 120);
    let purpose = match source.visibility {
        InitialSourceVisibility::Public => KnowledgePurpose::Public,
        InitialSourceVisibility::Internal => KnowledgePurpose::Internal,
    };
    match source.kind {
        InitialSourceKind::Text => ImportItem {
            client_item_id,
            kind: SourceKind::Text,
            name,
            purpose,
            text: Some(source.value.clone()),
            url: None,
            object_id: None,
            knowledge_release_id: None,
        },
        InitialSourceKind::Url => ImportItem {
            client_item_id,
            kind: SourceKind::Url,
            name,
            purpose,
            text: None,
            url: Some(source.value.clone()),
            object_id: None,
            knowledge_release_id: None,
        },
        InitialSourceKind::Object => ImportItem {
            client_item_id,
            kind: SourceKind::Object,
            name,
            purpose,
            text: None,
            url: None,
            object_id: uuid_value(source.value.as_str()),
            knowledge_release_id: None,
        },
        InitialSourceKind::KnowledgeCollection => ImportItem {
            client_item_id,
            kind: SourceKind::KnowledgeCollection,
            name,
            purpose,
            text: None,
            url: None,
            object_id: None,
            knowledge_release_id: match &source.version_ref {
                Some(r) => uuid_value(r.as_str()),
                None => None,
            },
        },
    }
}

/// An object item naming a source the project already has: the upload that
/// made that source already materialised it.
pub open spec fn already_materialized(s: KnowledgeStoreV, scope: TenantScope) -> spec_fn(ImportItem) -> bool {
    |it: ImportItem| it.kind == SourceKind::Object && (it.object_id matches Some(sid) && visible(
        s.sources,
        keys::<crate::knowledge::Source>(),
        sid,
        source_seen(scope),
    ) is Some)
}

pub open spec fn not_materialized(s: KnowledgeStoreV, scope: TenantScope) -> spec_fn(ImportItem) -> bool {
    |it: ImportItem| !already_materialized(s, scope)(it)
}

/// Imports a project's initial sources, given the JSON form of each: one
/// item per source, those already materialised left out, and the rest
/// imported as one batch (nothing at all when none is left).
pub fn materialize_initial_sources(
    knowledge: &mut MemoryKnowledgeRepository,
    scope: &TenantScope,
    sources: &Vec<InitialSource>,
    encoded: &Vec<Vec<u8>>,
) -> (r: Result<ImportBatchAcceptance, AppError>)
    requires
        old(knowledge)@.wf(),
        old(knowledge)@.has_room(),
        scope.project_id is Some,
        sources@.len() == encoded@.len(),
    ensures
        final(knowledge)@.wf(),
        exists|items: Seq<ImportItem>|
            #![trigger items.len()]
            items.len() == sources@.len() && (forall|i: int| 0 <= i < items.len() ==> item_fits(#[trigger] items[i], sources@[i], encoded@[i]@))
                && {
                let imports = crate::auth::keep(items, not_materialized(old(knowledge)@, *scope));
                if imports.len() == 0 {
                    r matches Ok(b) && b.items@.len() == 0 && final(knowledge)@ == old(knowledge)@
                } else if imports.len() > 100 {
                    result_view(r) == Err::<ImportBatchAcceptance, ErrorV>(invalid("imports must contain between 1 and 100 items"@))
                        && final(knowledge)@ == old(knowledge)@
                } else {
                    r matches Ok(b) && batch_outcome(old(knowledge)@, final(knowledge)@, *scope, imports, acceptance_views(b.items@))
                }
            },
{
    let ghost s0 = knowledge@;
    let mut items: Vec<ImportItem> = Vec::new();
    let mut i: usize = 0;
    while i < sources.len()
        invariant
            i <= sources.len(),
            sources@.len() == encoded@.len(),
            items@.len() == i,
            forall|k: int| 0 <= k < i ==> item_fits(#[trigger] items@[k], sources@[k], encoded@[k]@),
        decreases sources.len() - i,
    {
        items.push(initial_import_item(&sources[i], encoded[i].as_slice()));
        i += 1;
    }
    let ghost all = items@;
    let ghost p = not_materialized(s0, *scope);
    let mut imports: Vec<ImportItem> = Vec::new();
    let mut k: usize = 0;
    assert(all.take(0) =~= Seq::<ImportItem>::empty());
    while k < items.len()
        invariant
            k <= items.len(),
            all == items@,
            s0 == knowledge@,
            knowledge@.wf(),
            p == not_materialized(s0, *scope),
            scope.project_id is Some,
            imports@ == crate::auth::keep(all.take(k as int), p),
        decreases items.len() - k,
    {
        proof {
            assert(all.take(k + 1).drop_last() =~= all.take(k as int));
            assert(all.take(k + 1).last() == all[k as int]);
        }
        let item = &items[k];
        let reused = if item.kind == SourceKind::Object {
            match item.object_id {
                Some(sid) => match knowledge.get_source(scope, sid) {
                    Ok(Some(_)) => true,
                    _ => false,
                },
                None => false,
            }
        } else {
            false
        };
        if !reused {
            imports.push(item.copy());
        }
        k += 1;
    }
    assert(all.take(items.len() as int) =~= all);
    if imports.len() == 0 {
        return Ok(ImportBatchAcceptance { items: Vec::new() });
    }
    knowledge.import_batch(scope, imports)
}

} // verus!
