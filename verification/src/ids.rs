use vstd::prelude::*;

verus! {

/// Identifier of a operator: the 128-bit value of its UUID.
#[derive(Debug, Clone, Copy, PartialEq, Eq, Structural, Hash, PartialOrd, Ord)]
pub struct OperatorId(pub u128);

impl OperatorId {
    pub fn new(value: u128) -> (id: Self)
        ensures
            id.0 == value,
    {
        OperatorId(value)
    }

    pub fn as_uuid(self) -> (value: u128)
        ensures
            value == self.0,
    {
        self.0
    }
}

/// Identifier of a tenant: the 128-bit value of its UUID.
#[derive(Debug, Clone, Copy, PartialEq, Eq, Structural, Hash, PartialOrd, Ord)]
pub struct TenantId(pub u128);

impl TenantId {
    pub fn new(value: u128) -> (id: Self)
        ensures
            id.0 == value,
    {
        TenantId(value)
    }

    pub fn as_uuid(self) -> (value: u128)
        ensures
            value == self.0,
    {
        self.0
    }
}

/// Identifier of a project: the 128-bit value of its UUID.
#[derive(Debug, Clone, Copy, PartialEq, Eq, Structural, Hash, PartialOrd, Ord)]
pub struct ProjectId(pub u128);

impl ProjectId {
    pub fn new(value: u128) -> (id: Self)
        ensures
            id.0 == value,
    {
        ProjectId(value)
    }

    pub fn as_uuid(self) -> (value: u128)
        ensures
            value == self.0,
    {
        self.0
    }
}

/// Identifier of a user: the 128-bit value of its UUID.
#[derive(Debug, Clone, Copy, PartialEq, Eq, Structural, Hash, PartialOrd, Ord)]
pub struct UserId(pub u128);

impl UserId {
    pub fn new(value: u128) -> (id: Self)
        ensures
            id.0 == value,
    {
        UserId(value)
    }

    pub fn as_uuid(self) -> (value: u128)
        ensures
            value == self.0,
    {
        self.0
    }
}

/// Identifier of a session: the 128-bit value of its UUID.
#[derive(Debug, Clone, Copy, PartialEq, Eq, Structural, Hash, PartialOrd, Ord)]
pub struct SessionId(pub u128);

impl SessionId {
    pub fn new(value: u128) -> (id: Self)
        ensures
            id.0 == value,
    {
        SessionId(value)
    }

    pub fn as_uuid(self) -> (value: u128)
        ensures
            value == self.0,
    {
        self.0
    }
}

/// Identifier of a conversation: the 128-bit value of its UUID.
#[derive(Debug, Clone, Copy, PartialEq, Eq, Structural, Hash, PartialOrd, Ord)]
pub struct ConversationId(pub u128);

impl ConversationId {
    pub fn new(value: u128) -> (id: Self)
        ensures
            id.0 == value,
    {
        ConversationId(value)
    }

    pub fn as_uuid(self) -> (value: u128)
        ensures
            value == self.0,
    {
        self.0
    }
}

/// Identifier of a message: the 128-bit value of its UUID.
#[derive(Debug, Clone, Copy, PartialEq, Eq, Structural, Hash, PartialOrd, Ord)]
pub struct MessageId(pub u128);

impl MessageId {
    pub fn new(value: u128) -> (id: Self)
        ensures
            id.0 == value,
    {
        MessageId(value)
    }

    pub fn as_uuid(self) -> (value: u128)
        ensures
            value == self.0,
    {
        self.0
    }
}

/// Identifier of a turn: the 128-bit value of its UUID.
#[derive(Debug, Clone, Copy, PartialEq, Eq, Structural, Hash, PartialOrd, Ord)]
pub struct TurnId(pub u128);

impl TurnId {
    pub fn new(value: u128) -> (id: Self)
        ensures
            id.0 == value,
    {
        TurnId(value)
    }

    pub fn as_uuid(self) -> (value: u128)
        ensures
            value == self.0,
    {
        self.0
    }
}

/// Identifier of a run: the 128-bit value of its UUID.
#[derive(Debug, Clone, Copy, PartialEq, Eq, Structural, Hash, PartialOrd, Ord)]
pub struct RunId(pub u128);

impl RunId {
    pub fn new(value: u128) -> (id: Self)
        ensures
            id.0 == value,
    {
        RunId(value)
    }

    pub fn as_uuid(self) -> (value: u128)
        ensures
            value == self.0,
    {
        self.0
    }
}

/// Identifier of a conversation event: the 128-bit value of its UUID.
#[derive(Debug, Clone, Copy, PartialEq, Eq, Structural, Hash, PartialOrd, Ord)]
pub struct ConversationEventId(pub u128);

impl ConversationEventId {
    pub fn new(value: u128) -> (id: Self)
        ensures
            id.0 == value,
    {
        ConversationEventId(value)
    }

    pub fn as_uuid(self) -> (value: u128)
        ensures
            value == self.0,
    {
        self.0
    }
}

/// Identifier of a attachment: the 128-bit value of its UUID.
#[derive(Debug, Clone, Copy, PartialEq, Eq, Structural, Hash, PartialOrd, Ord)]
pub struct AttachmentId(pub u128);

impl AttachmentId {
    pub fn new(value: u128) -> (id: Self)
        ensures
            id.0 == value,
    {
        AttachmentId(value)
    }

    pub fn as_uuid(self) -> (value: u128)
        ensures
            value == self.0,
    {
        self.0
    }
}

/// Identifier of a checkpoint: the 128-bit value of its UUID.
#[derive(Debug, Clone, Copy, PartialEq, Eq, Structural, Hash, PartialOrd, Ord)]
pub struct CheckpointId(pub u128);

impl CheckpointId {
    pub fn new(value: u128) -> (id: Self)
        ensures
            id.0 == value,
    {
        CheckpointId(value)
    }

    pub fn as_uuid(self) -> (value: u128)
        ensures
            value == self.0,
    {
        self.0
    }
}

/// Identifier of a tool-call ledger entry: the 128-bit value of its UUID.
#[derive(Debug, Clone, Copy, PartialEq, Eq, Structural, Hash, PartialOrd, Ord)]
pub struct ToolCallLedgerId(pub u128);

impl ToolCallLedgerId {
    pub fn new(value: u128) -> (id: Self)
        ensures
            id.0 == value,
    {
        ToolCallLedgerId(value)
    }

    pub fn as_uuid(self) -> (value: u128)
        ensures
            value == self.0,
    {
        self.0
    }
}

/// The last `n` hexadecimal digits of `v`, most significant first.
pub open spec fn hex_digits(v: nat, n: nat) -> Seq<char>
    decreases n,
{
    if n == 0 {
        Seq::empty()
    } else {
        hex_digits(v / 16, (n - 1) as nat).push(crate::digest::hex_digit((v % 16) as u8))
    }
}

pub open spec fn pow16(n: nat) -> nat
    decreases n,
{
    if n == 0 {
        1
    } else {
        16 * pow16((n - 1) as nat)
    }
}

/// The canonical text of a UUID, as the `uuid` crate formats it: its 32
/// lower-case hexadecimal digits, most significant first, in groups of 8,
/// 4, 4, 4 and 12 joined by hyphens.
pub closed spec fn uuid_text(value: u128) -> Seq<char> {
    let d = hex_digits(value as nat, 32);
    d.subrange(0, 8) + "-"@ + d.subrange(8, 12) + "-"@ + d.subrange(12, 16) + "-"@ + d.subrange(16, 20) + "-"@
        + d.subrange(20, 32)
}

proof fn lemma_hex_digits_len(v: nat, n: nat)
    ensures
        hex_digits(v, n).len() == n,
    decreases n,
{
    if n > 0 {
        lemma_hex_digits_len(v / 16, (n - 1) as nat);
    }
}

proof fn lemma_hex_digits_injective(a: nat, b: nat, n: nat)
    requires
        a < pow16(n),
        b < pow16(n),
        hex_digits(a, n) == hex_digits(b, n),
    ensures
        a == b,
    decreases n,
{
    if n > 0 {
        let m = (n - 1) as nat;
        let da = hex_digits(a, n);
        let db = hex_digits(b, n);
        assert(da.last() == db.last());
        assert(crate::digest::hex_digit((a % 16) as u8) == crate::digest::hex_digit((b % 16) as u8));
        assert(a % 16 == b % 16);
        assert(da.drop_last() == hex_digits(a / 16, m));
        assert(db.drop_last() == hex_digits(b / 16, m));
        assert(a / 16 < pow16(m)) by (nonlinear_arith)
            requires a < pow16(n), pow16(n) == 16 * pow16(m);
        assert(b / 16 < pow16(m)) by (nonlinear_arith)
            requires b < pow16(n), pow16(n) == 16 * pow16(m);
        lemma_hex_digits_injective(a / 16, b / 16, m);
    }
}

/// Canonical UUID text is 36 characters long, and distinct UUIDs have
/// distinct texts.
pub proof fn lemma_uuid_text_injective(a: u128, b: u128)
    ensures
        uuid_text(a).len() == 36,
        uuid_text(a) == uuid_text(b) ==> a == b,
{
    reveal_strlit("-");
    lemma_hex_digits_len(a as nat, 32);
    lemma_hex_digits_len(b as nat, 32);
    assert("-"@.len() == 1);
    if uuid_text(a) == uuid_text(b) {
        let t = uuid_text(a);
        let da = hex_digits(a as nat, 32);
        let db = hex_digits(b as nat, 32);
        assert(da =~= t.subrange(0, 8) + t.subrange(9, 13) + t.subrange(14, 18) + t.subrange(19, 23) + t.subrange(24, 36));
        assert(db =~= t.subrange(0, 8) + t.subrange(9, 13) + t.subrange(14, 18) + t.subrange(19, 23) + t.subrange(24, 36));
        reveal_with_fuel(pow16, 33);
        assert(pow16(32) == 0x1_0000_0000_0000_0000_0000_0000_0000_0000);
        lemma_hex_digits_injective(a as nat, b as nat, 32);
    }
}

/// Whether a character can occur in the canonical text of a UUID.
pub open spec fn is_uuid_text_char(c: char) -> bool {
    ('0' <= c && c <= '9') || ('a' <= c && c <= 'f') || c == '-'
}

/// Formats a UUID value with `uuid::Uuid`'s `Display`: 36 characters, the
/// hexadecimal digits in lower case and four hyphens.
#[verifier::external_body]
pub(crate) fn uuid_to_string(value: u128) -> (text: String)
    ensures
        text@ == uuid_text(value),
        text@.len() == 36,
        forall|i: int| 0 <= i < 36 ==> is_uuid_text_char(#[trigger] text@[i]),
{
    uuid::Uuid::from_u128(value).to_string()
}

/// What `uuid::Uuid::parse_str` accepts, and the value it reads.
pub uninterp spec fn uuid_parse(text: Seq<char>) -> Option<u128>;

/// The message of the error `uuid::Uuid::parse_str` gives for `text`.
pub uninterp spec fn uuid_parse_error(text: Seq<char>) -> Seq<char>;

/// Parses a UUID with `uuid::Uuid::parse_str`; a text that is not one gives
/// the parser's message.
#[verifier::external_body]
pub(crate) fn parse_uuid(text: &str) -> (r: Result<u128, String>)
    ensures
        match r {
            Ok(value) => uuid_parse(text@) == Some(value),
            Err(message) => uuid_parse(text@) is None && message@ == uuid_parse_error(text@),
        },
{
    uuid::Uuid::parse_str(text).map(|value| value.as_u128()).map_err(|error| error.to_string())
}

/// The UUID `text` spells, if it spells one.
pub(crate) fn uuid_value(text: &str) -> (value: Option<u128>)
    ensures
        value == uuid_parse(text@),
{
    match parse_uuid(text) {
        Ok(value) => Some(value),
        Err(_) => None,
    }
}

/// A fresh random (version 4) UUID from `uuid::Uuid::new_v4`.  Its value
/// comes from the random source; only its version nibble (4) and its
/// variant bits (binary 10) are fixed.
#[verifier::external_body]
pub(crate) fn new_uuid() -> (u: u128)
    ensures
        u & 0xF000_C000_0000_0000_0000u128 == 0x4000_8000_0000_0000_0000u128,
{
    uuid::Uuid::new_v4().as_u128()
}

/// The operator and tenant boundary used for every tenant-owned operation.
#[derive(Debug, Clone, Copy, PartialEq, Eq, Structural, Hash)]
pub struct TenantScopeId {
    pub operator_id: OperatorId,
    pub tenant_id: TenantId,
}

pub open spec fn tenant_key_text(operator_id: OperatorId, tenant_id: TenantId) -> Seq<char> {
    uuid_text(operator_id.0) + ":"@ + uuid_text(tenant_id.0)
}

impl TenantScopeId {
    pub fn new(operator_id: OperatorId, tenant_id: TenantId) -> (id: Self)
        ensures
            id.operator_id == operator_id,
            id.tenant_id == tenant_id,
    {
        TenantScopeId { operator_id, tenant_id }
    }

    /// `operator:tenant`, each part in canonical UUID text.
    pub fn storage_key(&self) -> (key: String)
        ensures
            key@ == tenant_key_text(self.operator_id, self.tenant_id),
    {
        let key = uuid_to_string(self.operator_id.0);
        let key = key.concat(":");
        let tenant = uuid_to_string(self.tenant_id.0);
        key.concat(tenant.as_str())
    }
}

/// A tenant scope optionally narrowed to one project.
#[derive(Debug, Clone, Copy, PartialEq, Eq, Structural, Hash)]
pub struct TenantScope {
    pub operator_id: OperatorId,
    pub tenant_id: TenantId,
    pub project_id: Option<ProjectId>,
}

/// A scope sees a candidate when both belong to the same operator and tenant
/// and, if the scope names a project, the candidate names the same project.
pub open spec fn scope_contains(scope: TenantScope, candidate: TenantScope) -> bool {
    &&& scope.operator_id == candidate.operator_id
    &&& scope.tenant_id == candidate.tenant_id
    &&& match scope.project_id {
        None => true,
        Some(p) => candidate.project_id == Some(p),
    }
}

pub open spec fn scope_key_text(scope: TenantScope) -> Seq<char> {
    match scope.project_id {
        Some(p) => tenant_key_text(scope.operator_id, scope.tenant_id) + ":"@ + uuid_text(p.0),
        None => tenant_key_text(scope.operator_id, scope.tenant_id),
    }
}

/// Distinct scopes have distinct storage keys: the key of a scope without a
/// project is its tenant's key, and that of a scope with one adds a colon
/// and the project's UUID text, so the key gives back every part.
pub proof fn lemma_storage_key_injective(a: TenantScope, b: TenantScope)
    ensures
        scope_key_text(a) == scope_key_text(b) ==> a == b,
        tenant_key_text(a.operator_id, a.tenant_id) == tenant_key_text(b.operator_id, b.tenant_id) ==> a.operator_id
            == b.operator_id && a.tenant_id == b.tenant_id,
{
    reveal_strlit(":");
    lemma_uuid_text_injective(a.operator_id.0, b.operator_id.0);
    lemma_uuid_text_injective(a.tenant_id.0, b.tenant_id.0);
    lemma_uuid_text_injective(b.operator_id.0, a.operator_id.0);
    lemma_uuid_text_injective(b.tenant_id.0, a.tenant_id.0);
    let ta = tenant_key_text(a.operator_id, a.tenant_id);
    let tb = tenant_key_text(b.operator_id, b.tenant_id);
    if ta == tb {
        assert(ta.subrange(0, 36) =~= uuid_text(a.operator_id.0));
        assert(tb.subrange(0, 36) =~= uuid_text(b.operator_id.0));
        assert(ta.subrange(37, 73) =~= uuid_text(a.tenant_id.0));
        assert(tb.subrange(37, 73) =~= uuid_text(b.tenant_id.0));
    }
    let ka = scope_key_text(a);
    let kb = scope_key_text(b);
    if ka == kb {
        assert(ka.subrange(0, 73) =~= ta);
        assert(kb.subrange(0, 73) =~= tb);
        assert(ta.subrange(0, 36) =~= uuid_text(a.operator_id.0));
        assert(tb.subrange(0, 36) =~= uuid_text(b.operator_id.0));
        assert(ta.subrange(37, 73) =~= uuid_text(a.tenant_id.0));
        assert(tb.subrange(37, 73) =~= uuid_text(b.tenant_id.0));
        if let (Some(p), Some(q)) = (a.project_id, b.project_id) {
            lemma_uuid_text_injective(p.0, q.0);
            lemma_uuid_text_injective(q.0, p.0);
            assert(ka.subrange(74, 110) =~= uuid_text(p.0));
            assert(kb.subrange(74, 110) =~= uuid_text(q.0));
        }
    }
}

impl TenantScope {
    pub fn new(operator_id: OperatorId, tenant_id: TenantId, project_id: Option<ProjectId>) -> (scope: Self)
        ensures
            scope.operator_id == operator_id,
            scope.tenant_id == tenant_id,
            scope.project_id == project_id,
    {
        TenantScope { operator_id, tenant_id, project_id }
    }

    pub fn tenant_id(&self) -> (id: TenantScopeId)
        ensures
            id.operator_id == self.operator_id,
            id.tenant_id == self.tenant_id,
    {
        TenantScopeId::new(self.operator_id, self.tenant_id)
    }

    /// Returns whether an event or resource belongs to the requested scope.
    /// A scope without a project sees all projects in the same tenant.
    pub fn contains(&self, candidate: &Self) -> (visible: bool)
        ensures
            visible == scope_contains(*self, *candidate),
    {
        self.operator_id == candidate.operator_id && self.tenant_id == candidate.tenant_id
            && match self.project_id {
            None => true,
            Some(p) => match candidate.project_id {
                Some(q) => p == q,
                None => false,
            },
        }
    }

    /// `operator:tenant` or `operator:tenant:project`.
    pub fn storage_key(&self) -> (key: String)
        ensures
            key@ == scope_key_text(*self),
    {
        let base = self.tenant_id().storage_key();
        match self.project_id {
            Some(p) => {
                let key = base.concat(":");
                let project = uuid_to_string(p.0);
                key.concat(project.as_str())
            },
            None => base,
        }
    }
}

/// Containment is reflexive.
pub proof fn lemma_scope_contains_itself(scope: TenantScope)
    ensures
        scope_contains(scope, scope),
{
}

/// Containment is transitive: what a narrower visible scope sees, the wider
/// scope sees too.
pub proof fn lemma_scope_contains_transitive(a: TenantScope, b: TenantScope, c: TenantScope)
    requires
        scope_contains(a, b),
        scope_contains(b, c),
    ensures
        scope_contains(a, c),
{
}

/// A scope without a project sees every project of its tenant and nothing of
/// another tenant or operator.
pub proof fn lemma_tenant_wide_scope(scope: TenantScope, candidate: TenantScope)
    requires
        scope.project_id is None,
    ensures
        scope_contains(scope, candidate) <==> (candidate.operator_id == scope.operator_id
            && candidate.tenant_id == scope.tenant_id),
{
}

} // verus!
