//! Idempotent commands: a key is bound to its full server-side scope and the
//! hash of the request body; a repeated request replays the stored response,
//! waits while the first is in flight, and is refused with another body.

use vstd::prelude::*;
use crate::digest::{sha256_hex, sha256_hex_text};
use crate::error::{AppError, ErrorCode, ErrorV, err};
use crate::api::{idempotency_key, key_rule};
use crate::context::HeaderField;
use crate::ids::{scope_key_text, TenantScope};
use crate::rules::invalid;
use crate::text::{str_eq, trim, trimmed};

verus! {

/// The response retained for a completed idempotent command.
#[derive(Debug)]
pub struct StoredResponse {
    pub status: u16,
    pub content_type: String,
    pub body: Vec<u8>,
}

pub struct StoredResponseV {
    pub status: u16,
    pub content_type: Seq<char>,
    pub body: Seq<u8>,
}

impl View for StoredResponse {
    type V = StoredResponseV;

    open spec fn view(&self) -> StoredResponseV {
        StoredResponseV { status: self.status, content_type: self.content_type@, body: self.body@ }
    }
}

impl StoredResponse {
    pub fn copy(&self) -> (r: Self)
        ensures
            r@ == self@,
    {
        let body = self.body.clone();
        assert(body@ =~= self.body@);
        StoredResponse { status: self.status, content_type: self.content_type.clone(), body }
    }
}

/// A reservation returned by an idempotency store for a new request.
#[derive(Debug)]
pub struct IdempotencyToken {
    pub scope: String,
    pub key: String,
    pub body_hash: String,
}

pub struct TokenV {
    pub scope: Seq<char>,
    pub key: Seq<char>,
    pub body_hash: Seq<char>,
}

impl View for IdempotencyToken {
    type V = TokenV;

    open spec fn view(&self) -> TokenV {
        TokenV { scope: self.scope@, key: self.key@, body_hash: self.body_hash@ }
    }
}

#[derive(Debug)]
pub enum IdempotencyDecision {
    New(IdempotencyToken),
    Replay(StoredResponse),
    InFlight,
}

pub enum DecisionV {
    New(TokenV),
    Replay(StoredResponseV),
    InFlight,
}

impl View for IdempotencyDecision {
    type V = DecisionV;

    open spec fn view(&self) -> DecisionV {
        match self {
            IdempotencyDecision::New(t) => DecisionV::New(t@),
            IdempotencyDecision::Replay(r) => DecisionV::Replay(r@),
            IdempotencyDecision::InFlight => DecisionV::InFlight,
        }
    }
}

/// The idempotency contract shared by the request boundary and the stores
/// that keep reservations.
pub trait IdempotencyStore {
    /// Reserves `key` in `scope` for a request with `body_hash`, or says
    /// what an earlier request with that key left.
    fn begin(&mut self, scope: &TenantScope, key: &str, body_hash: &str) -> (r: Result<IdempotencyDecision, AppError>);

    /// Records the response of a reserved request.
    fn complete(&mut self, token: &IdempotencyToken, response: StoredResponse) -> (r: Result<(), AppError>);
}

/// One key of one scope: the body hash it was first used with, and the
/// response once the request completed.
#[derive(Debug)]
pub struct Reservation {
    pub scope: String,
    pub key: String,
    pub body_hash: String,
    pub response: Option<StoredResponse>,
}

pub struct ReservationV {
    pub scope: Seq<char>,
    pub key: Seq<char>,
    pub body_hash: Seq<char>,
    pub response: Option<StoredResponseV>,
}

impl View for Reservation {
    type V = ReservationV;

    open spec fn view(&self) -> ReservationV {
        ReservationV {
            scope: self.scope@,
            key: self.key@,
            body_hash: self.body_hash@,
            response: match self.response {
                Some(r) => Some(r@),
                None => None,
            },
        }
    }
}

/// An in-memory idempotency store for development.
#[derive(Debug)]
pub struct MemoryIdempotencyStore {
    records: Vec<Reservation>,
}

impl View for MemoryIdempotencyStore {
    type V = Seq<ReservationV>;

    closed spec fn view(&self) -> Seq<ReservationV> {
        self.records@.map_values(|r: Reservation| r@)
    }
}

/// No scope and key is reserved twice.
pub open spec fn keys_unique(s: Seq<ReservationV>) -> bool {
    forall|i: int, j: int|
        0 <= i < s.len() && 0 <= j < s.len() && (#[trigger] s[i]).scope == (#[trigger] s[j]).scope && s[i].key == s[j].key
            ==> i == j
}

/// Where `key` of `scope` is reserved, if it is.
pub open spec fn reservation_at(s: Seq<ReservationV>, scope: Seq<char>, key: Seq<char>) -> Option<int> {
    if exists|i: int| 0 <= i < s.len() && (#[trigger] s[i]).scope == scope && s[i].key == key {
        Some(choose|i: int| 0 <= i < s.len() && (#[trigger] s[i]).scope == scope && s[i].key == key)
    } else {
        None
    }
}

pub open spec fn other_body() -> ErrorV {
    err(ErrorCode::Conflict, "Idempotency-Key was already used with a different request body"@)
}

pub open spec fn missing_reservation() -> ErrorV {
    err(ErrorCode::Conflict, "idempotency reservation is missing or belongs to another request"@)
}

pub open spec fn decision_view(r: Result<IdempotencyDecision, AppError>) -> Result<DecisionV, ErrorV> {
    match r {
        Ok(d) => Ok(d@),
        Err(e) => Err(e@),
    }
}

pub open spec fn unit_view(r: Result<(), AppError>) -> Result<(), ErrorV> {
    match r {
        Ok(()) => Ok(()),
        Err(e) => Err(e@),
    }
}

/// What `begin` answers and leaves behind.
pub open spec fn begin_outcome(
    old: Seq<ReservationV>,
    new: Seq<ReservationV>,
    scope: TenantScope,
    key: Seq<char>,
    body_hash: Seq<char>,
    r: Result<DecisionV, ErrorV>,
) -> bool {
    let k = scope_key_text(scope);
    if trimmed(key).len() == 0 {
        r == Err::<DecisionV, ErrorV>(invalid("Idempotency-Key must not be empty"@)) && new == old
    } else if trimmed(body_hash).len() == 0 {
        r == Err::<DecisionV, ErrorV>(invalid("request body hash must not be empty"@)) && new == old
    } else {
        match reservation_at(old, k, key) {
            None => r == Ok::<DecisionV, ErrorV>(DecisionV::New(TokenV { scope: k, key, body_hash })) && new == old.push(
                ReservationV { scope: k, key, body_hash, response: None },
            ),
            Some(i) => new == old && if old[i].body_hash != body_hash {
                r == Err::<DecisionV, ErrorV>(other_body())
            } else {
                match old[i].response {
                    None => r == Ok::<DecisionV, ErrorV>(DecisionV::InFlight),
                    Some(resp) => r == Ok::<DecisionV, ErrorV>(DecisionV::Replay(resp)),
                }
            },
        }
    }
}

/// What `complete` answers and leaves behind.
pub open spec fn complete_outcome(
    old: Seq<ReservationV>,
    new: Seq<ReservationV>,
    token: TokenV,
    response: StoredResponseV,
    r: Result<(), ErrorV>,
) -> bool {
    match reservation_at(old, token.scope, token.key) {
        Some(i) => if old[i].body_hash != token.body_hash {
            r == Err::<(), ErrorV>(missing_reservation()) && new == old
        } else if old[i].response is None {
            r == Ok::<(), ErrorV>(()) && new == old.update(i, ReservationV { response: Some(response), ..old[i] })
        } else {
            r == Ok::<(), ErrorV>(()) && new == old
        },
        None => r == Err::<(), ErrorV>(missing_reservation()) && new == old,
    }
}

impl MemoryIdempotencyStore {
    pub fn new() -> (s: Self)
        ensures
            s@ == Seq::<ReservationV>::empty(),
    {
        let s = MemoryIdempotencyStore { records: Vec::new() };
        assert(s@ =~= Seq::<ReservationV>::empty());
        s
    }

    #[verifier::type_invariant]
    spec fn inv(self) -> bool {
        keys_unique(self.records@.map_values(|r: Reservation| r@))
    }

    /// How many keys are reserved.
    pub fn len(&self) -> (n: usize)
        ensures
            n == self@.len(),
    {
        self.records.len()
    }

    pub fn is_empty(&self) -> (b: bool)
        ensures
            b == (self@.len() == 0),
    {
        self.records.len() == 0
    }

    fn find(&self, scope: &str, key: &str) -> (r: Option<usize>)
        ensures
            match r {
                Some(i) => i < self@.len() && reservation_at(self@, scope@, key@) == Some(i as int),
                None => reservation_at(self@, scope@, key@) is None,
            },
    {
        proof {
            use_type_invariant(self);
        }
        let ghost s = self@;
        let mut i: usize = 0;
        while i < self.records.len()
            invariant
                i <= self.records.len(),
                s == self@,
                s.len() == self.records@.len(),
                keys_unique(s),
                forall|k: int| 0 <= k < i ==> !((#[trigger] s[k]).scope == scope@ && s[k].key == key@),
            decreases self.records.len() - i,
        {
            let rec = &self.records[i];
            assert(s[i as int] == rec@);
            if str_eq(rec.scope.as_str(), scope) && str_eq(rec.key.as_str(), key) {
                proof {
                    let j = choose|j: int| 0 <= j < s.len() && (#[trigger] s[j]).scope == scope@ && s[j].key == key@;
                    assert(s[j].scope == s[i as int].scope);
                }
                return Some(i);
            }
            i += 1;
        }
        None
    }
}

impl IdempotencyStore for MemoryIdempotencyStore {
    fn begin(&mut self, scope: &TenantScope, key: &str, body_hash: &str) -> (r: Result<IdempotencyDecision, AppError>)
        ensures
            keys_unique(old(self)@),
            keys_unique(final(self)@),
            begin_outcome(old(self)@, final(self)@, *scope, key@, body_hash@, decision_view(r)),
    {
        proof {
            use_type_invariant(&*self);
        }
        if trim(key).unicode_len() == 0 {
            return Err(AppError::invalid_request("Idempotency-Key must not be empty"));
        }
        if trim(body_hash).unicode_len() == 0 {
            return Err(AppError::invalid_request("request body hash must not be empty"));
        }
        proof {
            use_type_invariant(&*self);
        }
        let k = scope.storage_key();
        match self.find(k.as_str(), key) {
            None => {
                let ghost s0 = self@;
                let rec = Reservation {
                    scope: k.clone(),
                    key: key.to_owned(),
                    body_hash: body_hash.to_owned(),
                    response: None,
                };
                let ghost rv = rec@;
                proof {
                    assert(self.records@.push(rec).map_values(|r: Reservation| r@) =~= s0.push(rv));
                    let t = s0.push(rv);
                    assert forall|a: int, b: int|
                        0 <= a < t.len() && 0 <= b < t.len() && (#[trigger] t[a]).scope == (#[trigger] t[b]).scope && t[a].key
                            == t[b].key implies a == b by {
                        if a < s0.len() && b < s0.len() {
                            assert(t[a] == s0[a] && t[b] == s0[b]);
                        } else if a < s0.len() {
                            assert(t[a] == s0[a]);
                        } else if b < s0.len() {
                            assert(t[b] == s0[b]);
                        }
                    }
                }
                let mut records: Vec<Reservation> = Vec::new();
                std::mem::swap(&mut records, &mut self.records);
                records.push(rec);
                self.records = records;
                assert(self@ =~= s0.push(rv));
                Ok(IdempotencyDecision::New(IdempotencyToken { scope: k, key: key.to_owned(), body_hash: body_hash.to_owned() }))
            },
            Some(i) => {
                let rec = &self.records[i];
                assert(self@[i as int] == rec@);
                if !str_eq(rec.body_hash.as_str(), body_hash) {
                    return Err(AppError::conflict("Idempotency-Key was already used with a different request body"));
                }
                match &rec.response {
                    None => Ok(IdempotencyDecision::InFlight),
                    Some(resp) => Ok(IdempotencyDecision::Replay(resp.copy())),
                }
            },
        }
    }

    fn complete(&mut self, token: &IdempotencyToken, response: StoredResponse) -> (r: Result<(), AppError>)
        ensures
            keys_unique(old(self)@),
            keys_unique(final(self)@),
            complete_outcome(old(self)@, final(self)@, token@, response@, unit_view(r)),
    {
        proof {
            use_type_invariant(&*self);
        }
        match self.find(token.scope.as_str(), token.key.as_str()) {
            None => Err(AppError::conflict("idempotency reservation is missing or belongs to another request")),
            Some(i) => {
                let ghost s0 = self@;
                assert(s0[i as int] == self.records@[i as int]@);
                if !str_eq(self.records[i].body_hash.as_str(), token.body_hash.as_str()) {
                    return Err(AppError::conflict("idempotency reservation is missing or belongs to another request"));
                }
                if self.records[i].response.is_some() {
                    return Ok(());
                }
                let old_rec = &self.records[i];
                let rec = Reservation {
                    scope: old_rec.scope.clone(),
                    key: old_rec.key.clone(),
                    body_hash: old_rec.body_hash.clone(),
                    response: Some(response),
                };
                let ghost rv = rec@;
                proof {
                    assert(self.records@.update(i as int, rec).map_values(|r: Reservation| r@) =~= s0.update(i as int, rv));
                    let t = s0.update(i as int, rv);
                    assert forall|a: int, b: int|
                        0 <= a < t.len() && 0 <= b < t.len() && (#[trigger] t[a]).scope == (#[trigger] t[b]).scope && t[a].key
                            == t[b].key implies a == b by {
                        if a != i && b != i {
                            assert(t[a] == s0[a] && t[b] == s0[b]);
                        } else if a == i && b != i {
                            assert(t[b] == s0[b]);
                        } else if b == i && a != i {
                            assert(t[a] == s0[a]);
                        }
                    }
                }
                let mut records: Vec<Reservation> = Vec::new();
                std::mem::swap(&mut records, &mut self.records);
                records.set(i, rec);
                self.records = records;
                assert(self@ =~= s0.update(i as int, rv));
                Ok(())
            },
        }
    }
}

proof fn lemma_reservation_unique(s: Seq<ReservationV>, scope: Seq<char>, key: Seq<char>, i: int)
    requires
        keys_unique(s),
        0 <= i < s.len(),
        s[i].scope == scope && s[i].key == key,
    ensures
        reservation_at(s, scope, key) == Some(i),
{
    let j = choose|j: int| 0 <= j < s.len() && (#[trigger] s[j]).scope == scope && s[j].key == key;
    assert(s[j].scope == s[i].scope);
}

/// A new reservation is found where it was pushed, and keeps keys unique.
proof fn lemma_reserved(s0: Seq<ReservationV>, s1: Seq<ReservationV>, scope: TenantScope, key: Seq<char>, body_hash: Seq<char>, t: TokenV)
    requires
        keys_unique(s0),
        begin_outcome(s0, s1, scope, key, body_hash, Ok(DecisionV::New(t))),
    ensures
        keys_unique(s1),
        t == (TokenV { scope: scope_key_text(scope), key, body_hash }),
        reservation_at(s1, t.scope, t.key) == Some(s0.len() as int),
        s1[s0.len() as int] == (ReservationV { scope: t.scope, key: t.key, body_hash, response: None }),
{
    let k = scope_key_text(scope);
    let n = s0.len() as int;
    assert forall|a: int, b: int|
        0 <= a < s1.len() && 0 <= b < s1.len() && (#[trigger] s1[a]).scope == (#[trigger] s1[b]).scope && s1[a].key == s1[b].key
            implies a == b by {
        if a < n && b < n {
            assert(s1[a] == s0[a] && s1[b] == s0[b]);
        } else if a < n {
            assert(s1[a] == s0[a]);
        } else if b < n {
            assert(s1[b] == s0[b]);
        }
    }
    lemma_reservation_unique(s1, k, key, n);
}

/// A request repeated with its key and body while the first is still in
/// flight is told so, and nothing changes.
pub proof fn lemma_repeat_in_flight(
    s0: Seq<ReservationV>,
    s1: Seq<ReservationV>,
    s2: Seq<ReservationV>,
    scope: TenantScope,
    key: Seq<char>,
    body_hash: Seq<char>,
    t: TokenV,
    r: Result<DecisionV, ErrorV>,
)
    requires
        keys_unique(s0),
        begin_outcome(s0, s1, scope, key, body_hash, Ok(DecisionV::New(t))),
        begin_outcome(s1, s2, scope, key, body_hash, r),
    ensures
        r == Ok::<DecisionV, ErrorV>(DecisionV::InFlight),
        s2 == s1,
{
    lemma_reserved(s0, s1, scope, key, body_hash, t);
}

/// Once a reserved request completed, repeating it with its key and body
/// replays the stored response and changes nothing.
pub proof fn lemma_replay_after_complete(
    s0: Seq<ReservationV>,
    s1: Seq<ReservationV>,
    s2: Seq<ReservationV>,
    s3: Seq<ReservationV>,
    scope: TenantScope,
    key: Seq<char>,
    body_hash: Seq<char>,
    t: TokenV,
    response: StoredResponseV,
    r: Result<DecisionV, ErrorV>,
)
    requires
        keys_unique(s0),
        begin_outcome(s0, s1, scope, key, body_hash, Ok(DecisionV::New(t))),
        complete_outcome(s1, s2, t, response, Ok(())),
        begin_outcome(s2, s3, scope, key, body_hash, r),
    ensures
        r == Ok::<DecisionV, ErrorV>(DecisionV::Replay(response)),
        s3 == s2,
{
    lemma_reserved(s0, s1, scope, key, body_hash, t);
    let n = s0.len() as int;
    assert(s2 == s1.update(n, ReservationV { response: Some(response), ..s1[n] }));
    assert forall|a: int, b: int|
        0 <= a < s2.len() && 0 <= b < s2.len() && (#[trigger] s2[a]).scope == (#[trigger] s2[b]).scope && s2[a].key == s2[b].key
            implies a == b by {
        assert(s1[a].scope == s2[a].scope && s1[a].key == s2[a].key);
        assert(s1[b].scope == s2[b].scope && s1[b].key == s2[b].key);
    }
    lemma_reservation_unique(s2, t.scope, t.key, n);
}

/// A key used again in its scope with another body is refused, and nothing
/// changes.
pub proof fn lemma_other_body_refused(
    s0: Seq<ReservationV>,
    s1: Seq<ReservationV>,
    s2: Seq<ReservationV>,
    scope: TenantScope,
    key: Seq<char>,
    body_hash: Seq<char>,
    other: Seq<char>,
    t: TokenV,
    r: Result<DecisionV, ErrorV>,
)
    requires
        keys_unique(s0),
        other != body_hash,
        trimmed(other).len() > 0,
        begin_outcome(s0, s1, scope, key, body_hash, Ok(DecisionV::New(t))),
        begin_outcome(s1, s2, scope, key, other, r),
    ensures
        r == Err::<DecisionV, ErrorV>(other_body()),
        s2 == s1,
{
    lemma_reserved(s0, s1, scope, key, body_hash, t);
}

/// The hexadecimal SHA-256 of a request body.
pub fn body_hash(body: &[u8]) -> (h: String)
    ensures
        h@ == sha256_hex_text(body@),
{
    sha256_hex(body)
}

// ---------------------------------------------------------------------------
// The command boundary.
// ---------------------------------------------------------------------------

/// The header that carries a command's idempotency key.
pub const IDEMPOTENCY_KEY_HEADER: &'static str = "idempotency-key";

/// The largest request body the command boundary buffers.
pub const MAX_IDEMPOTENCY_REQUEST_BYTES: usize = 1048576;

/// The largest response body the command boundary records.
pub const MAX_IDEMPOTENCY_RESPONSE_BYTES: usize = 1048576;

/// Whether a method changes state, and so needs an idempotency key.
pub fn is_command_method(method: &str) -> (b: bool)
    ensures
        b == (method@ == "POST"@ || method@ == "PUT"@ || method@ == "PATCH"@ || method@ == "DELETE"@),
{
    str_eq(method, "POST") || str_eq(method, "PUT") || str_eq(method, "PATCH") || str_eq(method, "DELETE")
}

/// What the command boundary does with a state-changing request.
#[derive(Debug)]
pub enum CommandGate {
    /// Run the command, then record its response under this reservation.
    Proceed(IdempotencyToken),
    /// Answer with the response recorded for the same request.
    Replay(StoredResponse),
    /// Answer with this error; the command does not run.
    Refuse(AppError),
}

pub enum GateV {
    Proceed(TokenV),
    Replay(StoredResponseV),
    Refuse(ErrorV),
}

impl View for CommandGate {
    type V = GateV;

    open spec fn view(&self) -> GateV {
        match self {
            CommandGate::Proceed(t) => GateV::Proceed(t@),
            CommandGate::Replay(r) => GateV::Replay(r@),
            CommandGate::Refuse(e) => GateV::Refuse(e@),
        }
    }
}

/// The answer to a repeat of a request that is still running.
pub open spec fn still_running() -> ErrorV {
    err(ErrorCode::Conflict, "an identical request with this Idempotency-Key is already being processed"@)
}

/// What a reservation attempt means at the boundary.
pub open spec fn gate_of(r: Result<DecisionV, ErrorV>) -> GateV {
    match r {
        Ok(DecisionV::New(t)) => GateV::Proceed(t),
        Ok(DecisionV::Replay(s)) => GateV::Replay(s),
        Ok(DecisionV::InFlight) => GateV::Refuse(still_running()),
        Err(e) => GateV::Refuse(e),
    }
}

/// Reserves a command's key for its body in `scope`, or says how to answer
/// without running it: a missing or empty key, a repeat that is still
/// running, a key used with another body; a finished repeat is replayed.
pub fn begin_command(store: &mut MemoryIdempotencyStore, scope: &TenantScope, key_header: &HeaderField, body: &[u8]) -> (g:
    CommandGate)
    ensures
        match key_rule(*key_header) {
            Err(e) => g@ == GateV::Refuse(e) && final(store)@ == old(store)@,
            Ok(key) => exists|d: Result<DecisionV, ErrorV>|
                begin_outcome(old(store)@, final(store)@, *scope, key, sha256_hex_text(body@), d) && g@ == gate_of(d),
        },
{
    let key = match idempotency_key(key_header) {
        Ok(key) => key,
        Err(e) => return CommandGate::Refuse(e),
    };
    let hash = body_hash(body);
    let r = store.begin(scope, key.as_str(), hash.as_str());
    let ghost d = decision_view(r);
    let g = match r {
        Ok(IdempotencyDecision::New(t)) => CommandGate::Proceed(t),
        Ok(IdempotencyDecision::Replay(s)) => CommandGate::Replay(s),
        Ok(IdempotencyDecision::InFlight) => CommandGate::Refuse(
            AppError::conflict("an identical request with this Idempotency-Key is already being processed"),
        ),
        Err(e) => CommandGate::Refuse(e),
    };
    assert(begin_outcome(old(store)@, store@, *scope, key@, sha256_hex_text(body@), d) && g@ == gate_of(d));
    g
}

/// A command runs at most once per key: once a key is reserved in a scope,
/// every later request with that key is replayed or refused, whatever its
/// body.
pub proof fn lemma_reserved_key_never_proceeds(
    old: Seq<ReservationV>,
    new: Seq<ReservationV>,
    scope: TenantScope,
    key: Seq<char>,
    body_hash: Seq<char>,
    d: Result<DecisionV, ErrorV>,
)
    requires
        reservation_at(old, scope_key_text(scope), key) is Some,
        begin_outcome(old, new, scope, key, body_hash, d),
    ensures
        !(gate_of(d) is Proceed),
        new == old,
{
}

/// The answer to a command whose body exceeds the buffered limit.
pub fn request_too_large() -> (e: AppError)
    ensures
        e@ == err(
            ErrorCode::InvalidRequest,
            "request body exceeds the 1048576-byte idempotency limit; uploads require a dedicated upload protocol"@,
        ),
{
    AppError::invalid_request(
        "request body exceeds the 1048576-byte idempotency limit; uploads require a dedicated upload protocol",
    )
}

/// The response recorded in place of one too large to keep, so that the
/// reservation does not stay in flight.
pub fn cache_overflow() -> (e: AppError)
    ensures
        e@ == err(
            ErrorCode::Internal,
            "response body exceeds the idempotency cache limit; this endpoint needs a dedicated streaming or upload idempotency design"@,
        ),
{
    AppError::new(
        ErrorCode::Internal,
        "response body exceeds the idempotency cache limit; this endpoint needs a dedicated streaming or upload idempotency design",
    )
}

} // verus!
