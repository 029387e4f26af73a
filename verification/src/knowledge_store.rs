//! The in-memory knowledge repository: verified uploads, text imports,
//! immutable releases and evidence-only search, all scoped to one project.

use vstd::prelude::*;
use vstd::string::StringExecFns;
use crate::clock::utc_now_micros;
use crate::digest::{lemma_utf8_len, sha256_hex, sha256_hex_str, sha256_hex_text, text_from_utf8, utf8};
use crate::error::{AppError, ErrorCode, ErrorV, err};
use crate::ids::{new_uuid, scope_contains, uuid_text, uuid_to_string, ProjectId, TenantScope};
use crate::knowledge::{
    chunk_views, chunks_of, clone_opt_text, deterministic_chunks, is_text_media, is_text_media_type, media_type_norm,
    normalize_media_type, sha256_rule, validate_sha256, Chunk, ChunkV, CurrentKnowledgeRelease, EvidenceV, ImportAcceptance,
    ImportAcceptanceV, ImportBatchAcceptance, ImportError, ImportItem, ImportJob, ImportJobV, ImportStage, ImportStatus,
    KnowledgeAnswerStatus, KnowledgeAskResult, KnowledgeCapability, KnowledgeCoverage, KnowledgeEvidence,
    KnowledgeOverview, KnowledgePurpose, KnowledgeRelease, KnowledgeSearchRequest, KnowledgeSearchResult,
    PipelineVersions, ReleaseV, Source, SourceDetail, SourceKind, SourceLocator, SourceState, SourceVersion,
    StoredObject, StoredObjectState, UploadSession, UploadSessionCommand, UploadSessionState, MAX_INLINE_TEXT_BYTES,
    MAX_UPLOAD_BYTES, copy_u128_vec,
};
use crate::knowledge::{Fact, Product};
use crate::operation::{Operation, OperationResult, OperationStatus};
use crate::rules::invalid;
use crate::agent_store::no_repeats;
use crate::sorting::{
    is_sorted_listing, key_before, keys_of_places, lemma_keys_of_places_sorted, lemma_keys_of_places_step,
    lemma_listing_from_keys, sort_keys,
};
use crate::text::{opt_text, 
    ascii_lower, contains, has_prefix, has_substring, lowercase, starts_with, str_eq, to_ascii_lowercase, to_lowercase, trim,
    trimmed,
};

verus! {

// ---------------------------------------------------------------------------
// Keyed sequences.
// ---------------------------------------------------------------------------

/// The first place in `s` whose key is `k`.
pub open spec fn key_at<T>(s: Seq<T>, key: spec_fn(T) -> u128, k: u128) -> Option<int> {
    if exists|i: int| 0 <= i < s.len() && key(#[trigger] s[i]) == k {
        Some(choose|i: int| 0 <= i < s.len() && key(#[trigger] s[i]) == k)
    } else {
        None
    }
}

/// The entry of `s` with key `k`.
pub open spec fn lookup<T>(s: Seq<T>, key: spec_fn(T) -> u128, k: u128) -> Option<T> {
    match key_at(s, key, k) {
        Some(i) => Some(s[i]),
        None => None,
    }
}

/// `s` with `x` written under its key: replaced in place, or added.
pub open spec fn upsert<T>(s: Seq<T>, key: spec_fn(T) -> u128, x: T) -> Seq<T> {
    match key_at(s, key, key(x)) {
        Some(i) => s.update(i, x),
        None => s.push(x),
    }
}

pub open spec fn unique_keys<T>(s: Seq<T>, key: spec_fn(T) -> u128) -> bool {
    forall|i: int, j: int| 0 <= i < s.len() && 0 <= j < s.len() && key(#[trigger] s[i]) == key(#[trigger] s[j]) ==> i == j
}

pub proof fn lemma_key_at_unique<T>(s: Seq<T>, key: spec_fn(T) -> u128, k: u128, i: int)
    requires
        unique_keys(s, key),
        0 <= i < s.len(),
        key(s[i]) == k,
    ensures
        key_at(s, key, k) == Some(i),
{
    let j = choose|j: int| 0 <= j < s.len() && key(#[trigger] s[j]) == k;
    assert(key(s[j]) == key(s[i]));
}

pub proof fn lemma_upsert_unique<T>(s: Seq<T>, key: spec_fn(T) -> u128, x: T)
    requires
        unique_keys(s, key),
    ensures
        unique_keys(upsert(s, key, x), key),
        lookup(upsert(s, key, x), key, key(x)) == Some(x),
        forall|k: u128| k != key(x) ==> lookup(upsert(s, key, x), key, k) == lookup(s, key, k),
{
    let t = upsert(s, key, x);
    match key_at(s, key, key(x)) {
        Some(i) => {
            assert(key(s[i]) == key(x));
            assert forall|a: int, b: int| 0 <= a < t.len() && 0 <= b < t.len() && key(#[trigger] t[a]) == key(#[trigger] t[b]) implies a
                == b by {
                if a != i && b != i {
                    assert(key(s[a]) == key(s[b]));
                } else if a == i && b != i {
                    assert(key(s[b]) == key(s[i]));
                } else if b == i && a != i {
                    assert(key(s[a]) == key(s[i]));
                }
            }
            lemma_key_at_unique(t, key, key(x), i);
            assert forall|k: u128| k != key(x) implies lookup(t, key, k) == lookup(s, key, k) by {
                match key_at(s, key, k) {
                    Some(m) => {
                        assert(key(s[m]) == k);
                        assert(m != i);
                        assert(t[m] == s[m]);
                        lemma_key_at_unique(t, key, k, m);
                    },
                    None => {
                        if exists|m: int| 0 <= m < t.len() && key(#[trigger] t[m]) == k {
                            let m = choose|m: int| 0 <= m < t.len() && key(#[trigger] t[m]) == k;
                            if m != i {
                                assert(key(s[m]) == k);
                            }
                        }
                    },
                }
            }
        },
        None => {
            let n = s.len() as int;
            assert forall|a: int, b: int| 0 <= a < t.len() && 0 <= b < t.len() && key(#[trigger] t[a]) == key(#[trigger] t[b]) implies a
                == b by {
                if a < n && b < n {
                    assert(key(s[a]) == key(s[b]));
                } else if a < n {
                    assert(key(s[a]) == key(x));
                } else if b < n {
                    assert(key(s[b]) == key(x));
                }
            }
            lemma_key_at_unique(t, key, key(x), n);
            assert forall|k: u128| k != key(x) implies lookup(t, key, k) == lookup(s, key, k) by {
                match key_at(s, key, k) {
                    Some(m) => {
                        assert(key(s[m]) == k);
                        assert(t[m] == s[m]);
                        lemma_key_at_unique(t, key, k, m);
                    },
                    None => {
                        if exists|m: int| 0 <= m < t.len() && key(#[trigger] t[m]) == k {
                            let m = choose|m: int| 0 <= m < t.len() && key(#[trigger] t[m]) == k;
                            if m < n {
                                assert(key(s[m]) == k);
                            }
                        }
                    },
                }
            }
        },
    }
}

/// Something stored under a 128-bit key.
pub trait Keyed: Sized {
    spec fn key_of(&self) -> u128;

    fn key(&self) -> (k: u128)
        ensures
            k == self.key_of(),
    ;
}

pub open spec fn keys<T: Keyed>() -> spec_fn(T) -> u128 {
    |x: T| x.key_of()
}

fn position<T: Keyed>(v: &Vec<T>, k: u128) -> (r: Option<usize>)
    requires
        unique_keys(v@, keys::<T>()),
    ensures
        match r {
            Some(i) => i < v@.len() && key_at(v@, keys::<T>(), k) == Some(i as int),
            None => key_at(v@, keys::<T>(), k) is None,
        },
{
    let mut i: usize = 0;
    while i < v.len()
        invariant
            i <= v.len(),
            unique_keys(v@, keys::<T>()),
            forall|m: int| 0 <= m < i ==> (#[trigger] v@[m]).key_of() != k,
        decreases v.len() - i,
    {
        if v[i].key() == k {
            proof {
                assert(keys::<T>()(v@[i as int]) == k);
                lemma_key_at_unique(v@, keys::<T>(), k, i as int);
            }
            return Some(i);
        }
        i += 1;
    }
    proof {
        if exists|m: int| 0 <= m < v@.len() && keys::<T>()(#[trigger] v@[m]) == k {
            let m = choose|m: int| 0 <= m < v@.len() && keys::<T>()(#[trigger] v@[m]) == k;
            assert(v@[m].key_of() == k);
        }
    }
    None
}

fn store<T: Keyed>(v: &mut Vec<T>, x: T)
    requires
        unique_keys(old(v)@, keys::<T>()),
    ensures
        final(v)@ == upsert(old(v)@, keys::<T>(), x),
        unique_keys(final(v)@, keys::<T>()),
{
    let ghost s = v@;
    let ghost xv = x;
    match position(v, x.key()) {
        Some(i) => {
            v.set(i, x);
            assert(v@ =~= s.update(i as int, xv));
        },
        None => {
            v.push(x);
            assert(v@ =~= s.push(xv));
        },
    }
    proof {
        lemma_upsert_unique(s, keys::<T>(), xv);
    }
}

impl Keyed for UploadSession {
    open spec fn key_of(&self) -> u128 {
        self.upload_session_id
    }

    fn key(&self) -> (k: u128) {
        self.upload_session_id
    }
}

impl Keyed for StoredObject {
    open spec fn key_of(&self) -> u128 {
        self.object_id
    }

    fn key(&self) -> (k: u128) {
        self.object_id
    }
}

impl Keyed for Source {
    open spec fn key_of(&self) -> u128 {
        self.source_id
    }

    fn key(&self) -> (k: u128) {
        self.source_id
    }
}

impl Keyed for SourceVersion {
    open spec fn key_of(&self) -> u128 {
        self.source_version_id
    }

    fn key(&self) -> (k: u128) {
        self.source_version_id
    }
}

impl Keyed for ImportJob {
    open spec fn key_of(&self) -> u128 {
        self.import_job_id
    }

    fn key(&self) -> (k: u128) {
        self.import_job_id
    }
}

impl Keyed for KnowledgeRelease {
    open spec fn key_of(&self) -> u128 {
        self.knowledge_release_id
    }

    fn key(&self) -> (k: u128) {
        self.knowledge_release_id
    }
}

/// Bytes kept under the id of an upload session or a stored object.
#[derive(Debug)]
pub struct Blob {
    pub id: u128,
    pub bytes: Vec<u8>,
}

impl Keyed for Blob {
    open spec fn key_of(&self) -> u128 {
        self.id
    }

    fn key(&self) -> (k: u128) {
        self.id
    }
}

/// The chunks of one source version.
#[derive(Debug)]
pub struct VersionChunks {
    pub source_version_id: u128,
    pub chunks: Vec<Chunk>,
}

impl Keyed for VersionChunks {
    open spec fn key_of(&self) -> u128 {
        self.source_version_id
    }

    fn key(&self) -> (k: u128) {
        self.source_version_id
    }
}


// ---------------------------------------------------------------------------
// The store.
// ---------------------------------------------------------------------------

/// An import item accepted under its client item id in one scope.
#[derive(Debug)]
pub struct ImportRecord {
    pub scope: TenantScope,
    pub key: String,
    pub item: ImportItem,
    pub acceptance: ImportAcceptance,
}

/// A completed upload, remembered under its idempotency key digest.
#[derive(Debug)]
pub struct Completion {
    pub upload_session_id: u128,
    pub key_hash: String,
    pub acceptance: ImportAcceptance,
}

/// The current release of one project scope.
#[derive(Debug, Clone, Copy)]
pub struct CurrentRelease {
    pub scope: TenantScope,
    pub release_id: u128,
}

#[derive(Debug)]
pub struct MemoryKnowledgeRepository {
    upload_sessions: Vec<UploadSession>,
    upload_bytes: Vec<Blob>,
    stored_objects: Vec<StoredObject>,
    object_bytes: Vec<Blob>,
    sources: Vec<Source>,
    versions: Vec<SourceVersion>,
    jobs: Vec<ImportJob>,
    chunks: Vec<VersionChunks>,
    releases: Vec<KnowledgeRelease>,
    current_release: Vec<CurrentRelease>,
    import_items: Vec<ImportRecord>,
    completions: Vec<Completion>,
}

pub struct KnowledgeStoreV {
    pub upload_sessions: Seq<UploadSession>,
    pub upload_bytes: Seq<Blob>,
    pub stored_objects: Seq<StoredObject>,
    pub object_bytes: Seq<Blob>,
    pub sources: Seq<Source>,
    pub versions: Seq<SourceVersion>,
    pub jobs: Seq<ImportJob>,
    pub chunks: Seq<VersionChunks>,
    pub releases: Seq<KnowledgeRelease>,
    pub current_release: Seq<CurrentRelease>,
    pub import_items: Seq<ImportRecord>,
    pub completions: Seq<Completion>,
}

impl View for MemoryKnowledgeRepository {
    type V = KnowledgeStoreV;

    closed spec fn view(&self) -> KnowledgeStoreV {
        KnowledgeStoreV {
            upload_sessions: self.upload_sessions@,
            upload_bytes: self.upload_bytes@,
            stored_objects: self.stored_objects@,
            object_bytes: self.object_bytes@,
            sources: self.sources@,
            versions: self.versions@,
            jobs: self.jobs@,
            chunks: self.chunks@,
            releases: self.releases@,
            current_release: self.current_release@,
            import_items: self.import_items@,
            completions: self.completions@,
        }
    }
}

impl KnowledgeStoreV {
    /// Revisions, sequence numbers and counts are far from their limit.
    pub open spec fn has_room(self) -> bool {
        self.bounded(0x0800_0000_0000_0000, 0x2000_0000)
    }

    /// Release sequence numbers below `sequences`, fewer than `versions`
    /// versions, and bounded session revisions and chunk lists.
    pub open spec fn bounded(self, sequences: int, versions: int) -> bool {
        &&& forall|i: int| 0 <= i < self.upload_sessions.len() ==> #[trigger] self.upload_sessions[i].revision < 0x1000_0000_0000_0000
        &&& forall|i: int| 0 <= i < self.releases.len() ==> #[trigger] self.releases[i].sequence < sequences
        &&& self.versions.len() < versions
        &&& forall|i: int| 0 <= i < self.chunks.len() ==> (#[trigger] self.chunks[i]).chunks@.len() < 0x8000_0000
    }

    /// What building a release needs.
    pub open spec fn release_room(self) -> bool {
        self.bounded(0x1000_0000_0000_0000, 0x8000_0000)
    }

    pub open spec fn wf(self) -> bool {
        &&& forall|i: int|
            0 <= i < self.import_items.len() ==> (#[trigger] self.import_items[i]).acceptance@.client_item_id
                == self.import_items[i].item.client_item_id@
        &&& unique_keys(self.upload_sessions, keys::<UploadSession>())
        &&& unique_keys(self.upload_bytes, keys::<Blob>())
        &&& unique_keys(self.stored_objects, keys::<StoredObject>())
        &&& unique_keys(self.object_bytes, keys::<Blob>())
        &&& unique_keys(self.sources, keys::<Source>())
        &&& unique_keys(self.versions, keys::<SourceVersion>())
        &&& unique_keys(self.jobs, keys::<ImportJob>())
        &&& unique_keys(self.chunks, keys::<VersionChunks>())
        &&& unique_keys(self.releases, keys::<KnowledgeRelease>())
        &&& forall|i: int, j: int|
            0 <= i < self.current_release.len() && 0 <= j < self.current_release.len() && (#[trigger] self.current_release[i]).scope
                == (#[trigger] self.current_release[j]).scope ==> i == j
        &&& forall|i: int, j: int|
            0 <= i < self.import_items.len() && 0 <= j < self.import_items.len() && (#[trigger] self.import_items[i]).scope
                == (#[trigger] self.import_items[j]).scope && self.import_items[i].key@ == self.import_items[j].key@ ==> i == j
        &&& forall|i: int, j: int|
            0 <= i < self.completions.len() && 0 <= j < self.completions.len() && (#[trigger] self.completions[i]).upload_session_id
                == (#[trigger] self.completions[j]).upload_session_id && self.completions[i].key_hash@ == self.completions[j].key_hash@
                ==> i == j
    }
}

pub open spec fn result_view<T>(r: Result<T, AppError>) -> Result<T, ErrorV> {
    match r {
        Ok(v) => Ok(v),
        Err(e) => Err(e@),
    }
}

pub open spec fn project_required() -> ErrorV {
    invalid("project_id is required for knowledge resources"@)
}

/// A knowledge record of operator, tenant and project is in a scope that
/// names that project.
pub open spec fn in_scope(scope: TenantScope, operator_id: crate::ids::OperatorId, tenant_id: crate::ids::TenantId, project_id: ProjectId) -> bool {
    operator_id == scope.operator_id && tenant_id == scope.tenant_id && scope.project_id == Some(project_id)
}

pub open spec fn session_in_scope(scope: TenantScope, s: UploadSession) -> bool {
    in_scope(scope, s.operator_id, s.tenant_id, s.project_id)
}

pub open spec fn session_not_found() -> ErrorV {
    err(ErrorCode::NotFound, "upload session not found"@)
}

pub open spec fn session_expired() -> ErrorV {
    err(ErrorCode::Conflict, "upload session has expired"@)
}

/// The checks an upload-session request passes, in order.
pub open spec fn upload_rule(c: UploadSessionCommand) -> Result<(), ErrorV> {
    if trimmed(c.filename@).len() == 0 || utf8(c.filename@).len() > 255 {
        Err(invalid("filename must be between 1 and 255 characters"@))
    } else if trimmed(c.declared_media_type@).len() == 0 || utf8(c.declared_media_type@).len() > 255 {
        Err(invalid("declared_media_type is required"@))
    } else if c.expected_size == 0 || c.expected_size > MAX_UPLOAD_BYTES {
        Err(invalid("expected_size must be between 1 and 104857600"@))
    } else {
        sha256_rule(c.expected_sha256@)
    }
}


pub open spec fn accepts_content(state: UploadSessionState) -> bool {
    state == UploadSessionState::Created || state == UploadSessionState::Uploading || state == UploadSessionState::Uploaded
}

/// What storing upload bytes does at instant `now`.
pub open spec fn put_content_outcome(
    old: KnowledgeStoreV,
    new: KnowledgeStoreV,
    scope: TenantScope,
    id: u128,
    content: Vec<u8>,
    now: int,
    r: Result<UploadSession, ErrorV>,
) -> bool {
    match scope.project_id {
        None => r == Err::<UploadSession, ErrorV>(project_required()) && new == old,
        Some(_) => match lookup(old.upload_sessions, keys::<UploadSession>(), id) {
            None => r == Err::<UploadSession, ErrorV>(session_not_found()) && new == old,
            Some(s) => if !session_in_scope(scope, s) {
                r == Err::<UploadSession, ErrorV>(session_not_found()) && new == old
            } else if s.expires_at <= now {
                r == Err::<UploadSession, ErrorV>(session_expired()) && new == KnowledgeStoreV {
                    upload_sessions: upsert(
                        old.upload_sessions,
                        keys::<UploadSession>(),
                        UploadSession { state: UploadSessionState::Expired, ..s },
                    ),
                    ..old
                }
            } else if !accepts_content(s.state) {
                r == Err::<UploadSession, ErrorV>(err(ErrorCode::Conflict, "upload session cannot accept content"@))
                    && new == old
            } else if content@.len() > s.expected_size || content@.len() > MAX_UPLOAD_BYTES {
                r == Err::<UploadSession, ErrorV>(invalid("uploaded content exceeds declared size"@)) && new == old
            } else {
                let s2 = UploadSession { state: UploadSessionState::Uploaded, revision: (s.revision + 1) as i64, ..s };
                r == Ok::<UploadSession, ErrorV>(s2) && new == KnowledgeStoreV {
                    upload_sessions: upsert(old.upload_sessions, keys::<UploadSession>(), s2),
                    upload_bytes: upsert(old.upload_bytes, keys::<Blob>(), Blob { id, bytes: content }),
                    ..old
                }
            },
        },
    }
}

pub open spec fn micros_per_hour() -> int {
    3600000000
}


// ---------------------------------------------------------------------------
// Releases and imports.
// ---------------------------------------------------------------------------

/// A version goes into a release of `scope` when it belongs to the scope, its
/// source is active, and it has chunks.
pub open spec fn version_released(s: KnowledgeStoreV, scope: TenantScope, v: SourceVersion) -> bool {
    &&& in_scope(scope, v.operator_id, v.tenant_id, v.project_id)
    &&& match lookup(s.sources, keys::<Source>(), v.source_id) {
        Some(src) => src.state == SourceState::Active,
        None => false,
    }
    &&& lookup(s.chunks, keys::<VersionChunks>(), v.source_version_id) is Some
}

pub open spec fn current_of(s: KnowledgeStoreV, scope: TenantScope) -> Option<u128> {
    if exists|i: int| 0 <= i < s.current_release.len() && (#[trigger] s.current_release[i]).scope == scope {
        Some(s.current_release[choose|i: int| 0 <= i < s.current_release.len() && (#[trigger] s.current_release[i]).scope == scope].release_id)
    } else {
        None
    }
}

pub open spec fn next_sequence(s: KnowledgeStoreV, scope: TenantScope) -> int {
    match current_of(s, scope) {
        Some(p) => match lookup(s.releases, keys::<KnowledgeRelease>(), p) {
            Some(r) => r.sequence + 1,
            None => 1,
        },
        None => 1,
    }
}

/// The ids of a list joined by new lines.
pub open spec fn joined_ids(ids: Seq<u128>) -> Seq<char>
    decreases ids.len(),
{
    if ids.len() == 0 {
        Seq::empty()
    } else if ids.len() == 1 {
        uuid_text(ids[0])
    } else {
        joined_ids(ids.drop_last()) + "\n"@ + uuid_text(ids.last())
    }
}

/// The chunks the listed versions hold together.
pub open spec fn chunk_total(s: KnowledgeStoreV, ids: Seq<u128>) -> int
    decreases ids.len(),
{
    if ids.len() == 0 {
        0
    } else {
        chunk_total(s, ids.drop_last()) + match lookup(s.chunks, keys::<VersionChunks>(), ids.last()) {
            Some(vc) => vc.chunks@.len() as int,
            None => 0,
        }
    }
}

pub open spec fn job_failed_in(scope: TenantScope, j: ImportJob) -> bool {
    in_scope(scope, j.operator_id, j.tenant_id, j.project_id) && (j.status == ImportStatus::Failed || j.status
        == ImportStatus::Partial)
}

/// How many jobs of the scope failed or partly failed.
pub open spec fn failed_jobs(jobs: Seq<ImportJob>, scope: TenantScope) -> int
    decreases jobs.len(),
{
    if jobs.len() == 0 {
        0
    } else {
        failed_jobs(jobs.drop_last(), scope) + if job_failed_in(scope, jobs.last()) {
            1int
        } else {
            0int
        }
    }
}

/// `r` is the release `make_release` builds for `scope` over store `s`.
pub open spec fn release_fits(s: KnowledgeStoreV, scope: TenantScope, r: ReleaseV) -> bool {
    &&& r.operator_id == scope.operator_id
    &&& r.tenant_id == scope.tenant_id
    &&& scope.project_id == Some(r.project_id)
    &&& r.sequence == next_sequence(s, scope)
    &&& r.previous_release_id == current_of(s, scope)
    &&& (forall|i: int, j: int| 0 <= i < j < r.source_version_refs.len() ==> #[trigger] r.source_version_refs[i] < #[trigger] r.source_version_refs[j])
    &&& (forall|id: u128| r.source_version_refs.contains(id) <==> exists|v: SourceVersion|
        #[trigger] s.versions.contains(v) && v.source_version_id == id && version_released(s, scope, v))
    &&& r.fact_revision_refs.len() == 0
    &&& r.index_build_id == "deterministic-text-index-v1"@
    &&& r.pipeline_versions == ("deterministic-text-v1"@, "none-v1"@, "substring-v1"@)
    &&& r.content_hash == sha256_hex_text(utf8(joined_ids(r.source_version_refs)))
    &&& r.source_version_count == r.source_version_refs.len()
    &&& r.chunk_count == chunk_total(s, r.source_version_refs)
    &&& r.failed_source_count == failed_jobs(s.jobs, scope)
    &&& r.blocked_reasons.len() == 0
}

/// The store after release `r` is recorded as the scope's current one.
pub open spec fn with_release(s: KnowledgeStoreV, scope: TenantScope, r: KnowledgeRelease) -> KnowledgeStoreV {
    KnowledgeStoreV {
        releases: upsert(s.releases, keys::<KnowledgeRelease>(), r),
        current_release: if exists|i: int| 0 <= i < s.current_release.len() && (#[trigger] s.current_release[i]).scope == scope {
            s.current_release.update(
                choose|i: int| 0 <= i < s.current_release.len() && (#[trigger] s.current_release[i]).scope == scope,
                CurrentRelease { scope, release_id: r.knowledge_release_id },
            )
        } else {
            s.current_release.push(CurrentRelease { scope, release_id: r.knowledge_release_id })
        },
        ..s
    }
}

pub open spec fn inline_limit_error() -> ErrorV {
    invalid("text exceeds inline limit; use an upload session"@)
}

pub open spec fn empty_text_error() -> ErrorV {
    invalid("text must not be empty"@)
}

/// The checks a text passes before it is imported.
pub open spec fn text_rule(text: Seq<char>) -> Result<(), ErrorV> {
    if utf8(text).len() > MAX_INLINE_TEXT_BYTES {
        Err(inline_limit_error())
    } else if trimmed(text).len() == 0 {
        Err(empty_text_error())
    } else {
        Ok(())
    }
}

/// What importing a text writes and answers: an active source, its first
/// version, the version's paragraph chunks, a succeeded release-stage job,
/// a succeeded operation, and a new release of the scope.
pub open spec fn text_import_outcome(
    old: KnowledgeStoreV,
    new: KnowledgeStoreV,
    scope: TenantScope,
    item: ImportItem,
    text: Seq<char>,
    object: Option<StoredObject>,
    r: Result<ImportAcceptanceV, ErrorV>,
) -> bool {
    match text_rule(text) {
        Err(e) => r == Err::<ImportAcceptanceV, ErrorV>(e) && new == old,
        Ok(()) => match r {
            Err(_) => false,
            Ok(a) => a.source matches Some(src) && a.source_version matches Some(v) && a.import_job matches Some(job)
                && a.operation matches Some(op) && a.release matches Some(rel) && {
                let hash = sha256_hex_text(utf8(text));
                let mid = KnowledgeStoreV {
                    sources: upsert(old.sources, keys::<Source>(), src),
                    versions: upsert(old.versions, keys::<SourceVersion>(), v),
                    chunks: new.chunks,
                    jobs: new.jobs,
                    stored_objects: match object {
                        Some(o) => upsert(old.stored_objects, keys::<StoredObject>(), o),
                        None => old.stored_objects,
                    },
                    ..old
                };
                &&& a.client_item_id == item.client_item_id@
                &&& a.status == ImportStatus::Succeeded
                &&& a.error is None
                &&& src.operator_id == scope.operator_id && src.tenant_id == scope.tenant_id && scope.project_id == Some(src.project_id)
                &&& src.revision == 1 && src.kind == item.kind && src.name == item.name && src.purpose == item.purpose
                &&& src.state == SourceState::Active && src.locator == SourceLocator::InlineText
                &&& src.current_version_id == Some(v.source_version_id)
                &&& !src.sync_enabled && src.next_sync_at is None && src.last_sync_at is None
                &&& v.operator_id == scope.operator_id && v.tenant_id == scope.tenant_id && v.project_id == src.project_id
                &&& v.source_id == src.source_id && v.version == 1
                &&& v.object_id == (match object { Some(o) => Some(o.object_id), None => None })
                &&& v.object_version == (match object { Some(o) => Some(o.object_version), None => None })
                &&& v.content_sha256@ == hash
                &&& v.captured_at == v.created_at
                &&& v.original_url is None && v.parent_version_id is None
                &&& v.parser_version@ == "deterministic-text-v1"@ && v.extraction_version@ == "none-v1"@
                &&& exists|vc: VersionChunks| #![trigger vc.source_version_id]
                    vc.source_version_id == v.source_version_id && chunks_of(chunk_views(vc.chunks@), text, scope, v.source_version_id)
                    && new.chunks == upsert(old.chunks, keys::<VersionChunks>(), vc)
                    && job.completed_units == vc.chunks@.len()
                    && job.stage_output_refs == seq!["chunks:"@ + crate::rules::decimal_text(vc.chunks@.len())]
                &&& job.operator_id == scope.operator_id && job.tenant_id == scope.tenant_id && job.project_id == src.project_id
                &&& job.operation_id == op.id && job.source_id == src.source_id
                &&& job.source_version_id == Some(v.source_version_id)
                &&& job.stage == ImportStage::Release && job.status == ImportStatus::Succeeded && job.attempt == 1
                &&& job.lease_until is None && job.input_hash == hash
                &&& job.failed_units == 0 && job.errors.len() == 0 && job.resumed_from is None
                &&& exists|stored_job: ImportJob| #![trigger stored_job.import_job_id]
                    stored_job@ == job && new.jobs == upsert(old.jobs, keys::<ImportJob>(), stored_job)
                &&& op.kind@ == "knowledge.import"@ && op.status == OperationStatus::Succeeded
                &&& op.scope == crate::knowledge::knowledge_scope(src.operator_id, src.tenant_id, src.project_id)
                &&& op.error is None
                &&& op.result == Some(OperationResult::KnowledgeImport {
                    source_id: src.source_id,
                    source_version_id: v.source_version_id,
                    knowledge_release_id: rel.knowledge_release_id,
                })
                &&& release_fits(mid, scope, rel)
                &&& exists|stored: KnowledgeRelease| #![trigger stored.knowledge_release_id]
                    stored@ == rel && new == with_release(mid, scope, stored)
            },
        },
    }
}



/// The failed acceptance of an import whose adapter is not configured: a
/// source waiting for it, a failed acquire job and a failed operation.
pub open spec fn missing_adapter_fits(a: ImportAcceptanceV, scope: TenantScope, item: ImportItem, capability: Seq<char>) -> bool {
    a.source matches Some(src) && a.import_job matches Some(job) && a.operation matches Some(op) && {
        let e = err(ErrorCode::CapabilityMissing, capability + " is not configured"@);
        &&& a.client_item_id == item.client_item_id@
        &&& a.status == ImportStatus::Failed
        &&& a.source_version is None
        &&& a.release is None
        &&& a.error == Some(e)
        &&& src.operator_id == scope.operator_id && src.tenant_id == scope.tenant_id && scope.project_id == Some(src.project_id)
        &&& src.revision == 1 && src.kind == item.kind && src.name == item.name && src.purpose == item.purpose
        &&& src.state == SourceState::Active
        &&& src.locator matches SourceLocator::Pending { capability: c } && c@ == capability
        &&& src.current_version_id is None && !src.sync_enabled && src.next_sync_at is None && src.last_sync_at is None
        &&& job.operator_id == scope.operator_id && job.tenant_id == scope.tenant_id && job.project_id == src.project_id
        &&& job.operation_id == op.id && job.source_id == src.source_id && job.source_version_id is None
        &&& job.stage == ImportStage::Acquire && job.status == ImportStatus::Failed && job.attempt == 0
        &&& job.lease_until is None && job.input_hash == sha256_hex_text(utf8(item.client_item_id@))
        &&& job.stage_output_refs.len() == 0 && job.completed_units == 0 && job.failed_units == 0
        &&& job.errors == seq![("capability_missing"@, capability)]
        &&& job.resumed_from is None
        &&& op.kind@ == "knowledge.import"@ && op.status == OperationStatus::Failed
        &&& op.scope == crate::knowledge::knowledge_scope(src.operator_id, src.tenant_id, src.project_id)
        &&& op.result is None
        &&& op.error matches Some(oe) && oe@ == e
    }
}

pub open spec fn acceptance_result(r: Result<ImportAcceptance, AppError>) -> Result<ImportAcceptanceV, ErrorV> {
    match r {
        Ok(a) => Ok(a@),
        Err(e) => Err(e@),
    }
}



/// A new release numbers one past an existing one at most.
pub proof fn lemma_release_bound(mid: KnowledgeStoreV, new: KnowledgeStoreV, scope: TenantScope, rel: ReleaseV, sequences: int)
    requires
        mid.wf(),
        sequences >= 1,
        mid.bounded(sequences, 0x8000_0000_0000_0000),
        release_fits(mid, scope, rel),
        exists|stored: KnowledgeRelease| #![trigger stored.knowledge_release_id]
            stored@ == rel && new == with_release(mid, scope, stored),
    ensures
        forall|i: int| 0 <= i < new.releases.len() ==> #[trigger] new.releases[i].sequence < sequences + 1,
        new.versions == mid.versions,
        new.chunks == mid.chunks,
        new.upload_sessions == mid.upload_sessions,
{
    let stored = choose|stored: KnowledgeRelease| #![trigger stored.knowledge_release_id]
        stored@ == rel && new == with_release(mid, scope, stored);
    match current_of(mid, scope) {
        Some(p) => match lookup(mid.releases, keys::<KnowledgeRelease>(), p) {
            Some(r) => {
                let k = key_at(mid.releases, keys::<KnowledgeRelease>(), p)->0;
                assert(mid.releases[k].sequence < sequences);
            },
            None => {},
        },
        None => {},
    }
    assert(stored@ == rel);
    assert(stored.sequence == rel.sequence);
    assert(rel.sequence == next_sequence(mid, scope));
    assert(stored.sequence < sequences + 1);
    assert forall|i: int| 0 <= i < new.releases.len() implies #[trigger] new.releases[i].sequence < sequences + 1 by {
        match key_at(mid.releases, keys::<KnowledgeRelease>(), stored.knowledge_release_id) {
            Some(k) => {
                if i != k {
                    assert(new.releases[i] == mid.releases[i]);
                }
            },
            None => {
                if i < mid.releases.len() {
                    assert(new.releases[i] == mid.releases[i]);
                }
            },
        }
    }
}

/// The failed acceptance of an import whose `capability` is not configured.
pub fn failed_missing_adapter(scope: &TenantScope, item: &ImportItem, capability: &str) -> (a: ImportAcceptance)
    requires
        scope.project_id is Some,
    ensures
        missing_adapter_fits(a@, *scope, *item, capability@),
{
    let project_id = scope.project_id.unwrap();
    let source_id = new_uuid();
    let mut operation = Operation::queued(
        String::from_str("knowledge.import"),
        TenantScope::new(scope.operator_id, scope.tenant_id, Some(project_id)),
    );
    operation.status = OperationStatus::Failed;
    let message = String::from_str(capability).concat(" is not configured");
    let capability_error = AppError::with_message(ErrorCode::CapabilityMissing, message);
    operation.error = Some(capability_error.copy());
    proof {
        reveal_strlit("knowledge.import");
        reveal_strlit(" is not configured");
        reveal_strlit("capability_missing");
    }
    let source = Source {
        source_id,
        operator_id: scope.operator_id,
        tenant_id: scope.tenant_id,
        project_id,
        revision: 1,
        kind: item.kind,
        name: item.name.clone(),
        purpose: item.purpose,
        state: SourceState::Active,
        locator: SourceLocator::Pending { capability: String::from_str(capability) },
        current_version_id: None,
        sync_enabled: false,
        next_sync_at: None,
        last_sync_at: None,
    };
    let mut errors: Vec<ImportError> = Vec::new();
    errors.push(
        ImportError { code: String::from_str("capability_missing"), capability: String::from_str(capability) },
    );
    let job = ImportJob {
        import_job_id: new_uuid(),
        operator_id: scope.operator_id,
        tenant_id: scope.tenant_id,
        project_id,
        operation_id: operation.id,
        source_id,
        source_version_id: None,
        stage: ImportStage::Acquire,
        status: ImportStatus::Failed,
        attempt: 0,
        lease_until: None,
        input_hash: sha256_hex_str(item.client_item_id.as_str()),
        stage_output_refs: Vec::new(),
        completed_units: 0,
        failed_units: 0,
        errors,
        resumed_from: None,
    };
    assert(job@.errors =~= seq![("capability_missing"@, capability@)]);
    assert(job@.stage_output_refs =~= Seq::<Seq<char>>::empty());
    ImportAcceptance {
        client_item_id: item.client_item_id.clone(),
        status: ImportStatus::Failed,
        source: Some(source),
        source_version: None,
        import_job: Some(job),
        operation: Some(operation),
        release: None,
        error: Some(capability_error),
    }
}


// ---------------------------------------------------------------------------
// Batch imports.
// ---------------------------------------------------------------------------

/// The record of client item `key` in `scope`, if any.
pub open spec fn prior_record(s: KnowledgeStoreV, scope: TenantScope, key: Seq<char>) -> Option<ImportRecord> {
    if exists|i: int| 0 <= i < s.import_items.len() && (#[trigger] s.import_items[i]).scope == scope && s.import_items[i].key@ == key {
        Some(s.import_items[choose|i: int| 0 <= i < s.import_items.len() && (#[trigger] s.import_items[i]).scope == scope && s.import_items[i].key@ == key])
    } else {
        None
    }
}

/// The store with `rec` recorded under its scope and key.
pub open spec fn with_record(s: KnowledgeStoreV, rec: ImportRecord) -> KnowledgeStoreV {
    KnowledgeStoreV {
        import_items: if exists|i: int|
            0 <= i < s.import_items.len() && (#[trigger] s.import_items[i]).scope == rec.scope && s.import_items[i].key@ == rec.key@ {
            s.import_items.update(
                choose|i: int|
                    0 <= i < s.import_items.len() && (#[trigger] s.import_items[i]).scope == rec.scope && s.import_items[i].key@
                        == rec.key@,
                rec,
            )
        } else {
            s.import_items.push(rec)
        },
        ..s
    }
}

/// Two import items ask for the same import.
pub open spec fn same_input(a: ImportItem, b: ImportItem) -> bool {
    &&& a.client_item_id@ == b.client_item_id@
    &&& a.kind == b.kind
    &&& a.name@ == b.name@
    &&& a.purpose == b.purpose
    &&& opt_text(a.text) == opt_text(b.text)
    &&& opt_text(a.url) == opt_text(b.url)
    &&& a.object_id == b.object_id
    &&& a.knowledge_release_id == b.knowledge_release_id
}

fn opt_text_eq(a: &Option<String>, b: &Option<String>) -> (r: bool)
    ensures
        r == (opt_text(*a) == opt_text(*b)),
{
    match (a, b) {
        (Some(x), Some(y)) => str_eq(x.as_str(), y.as_str()),
        (None, None) => true,
        _ => false,
    }
}

fn same_item(a: &ImportItem, b: &ImportItem) -> (r: bool)
    ensures
        r == same_input(*a, *b),
{
    a.client_item_id == b.client_item_id && a.kind == b.kind && a.name == b.name && a.purpose == b.purpose
        && opt_text_eq(&a.text, &b.text) && opt_text_eq(&a.url, &b.url) && a.object_id == b.object_id
        && a.knowledge_release_id == b.knowledge_release_id
}

/// A failed item acceptance carrying only its error.
pub open spec fn failed_item(client_item_id: Seq<char>, e: ErrorV) -> ImportAcceptanceV {
    ImportAcceptanceV {
        client_item_id,
        status: ImportStatus::Failed,
        source: None,
        source_version: None,
        import_job: None,
        operation: None,
        release: None,
        error: Some(e),
    }
}

pub open spec fn is_http_url(u: Seq<char>) -> bool {
    has_prefix(u, "https://"@) || has_prefix(u, "http://"@)
}

/// What importing one new item by its kind writes and answers.
pub open spec fn kind_outcome(s1: KnowledgeStoreV, mid: KnowledgeStoreV, scope: TenantScope, item: ImportItem, a: ImportAcceptanceV) -> bool {
    let id = item.client_item_id@;
    match item.kind {
        SourceKind::Text => match item.text {
            None => a == failed_item(id, invalid("text imports require the text field"@)) && mid == s1,
            Some(t) => exists|r: Result<ImportAcceptanceV, ErrorV>|
                #[trigger] text_import_outcome(s1, mid, scope, item, t@, None, r) && match r {
                    Ok(acc) => a == acc,
                    Err(e) => a == failed_item(id, e),
                },
        },
        SourceKind::Url => if item.url matches Some(u) && is_http_url(u@) {
            missing_adapter_fits(a, scope, item, "url_fetch"@) && exists|job: ImportJob| #![trigger job.import_job_id]
                Some(job@) == a.import_job && mid == KnowledgeStoreV {
                    sources: upsert(s1.sources, keys::<Source>(), a.source->0),
                    jobs: upsert(s1.jobs, keys::<ImportJob>(), job),
                    ..s1
                }
        } else {
            a == failed_item(id, invalid("url imports require an http or https URL"@)) && mid == s1
        },
        SourceKind::Object => a == failed_item(id, err(ErrorCode::CapabilityMissing, "object import adapter is not implemented"@))
            && mid == s1,
        SourceKind::KnowledgeCollection => a == failed_item(
            id,
            err(ErrorCode::CapabilityMissing, "knowledge collection materialization is not implemented"@),
        ) && mid == s1,
        _ => a == failed_item(id, invalid("file imports require an upload session; manual imports require text"@)) && mid
            == s1,
    }
}

/// What one item of a batch does: a bad client item id fails alone, a
/// known one replays its acceptance (or conflicts when the input changed),
/// and a new one is imported by kind and recorded.
pub open spec fn item_outcome(s1: KnowledgeStoreV, s2: KnowledgeStoreV, scope: TenantScope, item: ImportItem, a: ImportAcceptanceV) -> bool {
    let key = trimmed(item.client_item_id@);
    &&& a.client_item_id == item.client_item_id@
    &&& if key.len() == 0 || utf8(key).len() > 200 {
        a == failed_item(item.client_item_id@, invalid("client_item_id is required and at most 200 characters"@)) && s2 == s1
    } else {
        match prior_record(s1, scope, key) {
            Some(rec) => s2 == s1 && if !same_input(rec.item, item) {
                a == failed_item(item.client_item_id@, err(ErrorCode::Conflict, "client_item_id was already used with different input"@))
            } else {
                a == rec.acceptance@
            },
            None => exists|mid: KnowledgeStoreV, rec: ImportRecord|
                #[trigger] kind_outcome(s1, mid, scope, item, a) && rec.scope == scope && rec.key@ == key && rec.item == item
                    && rec.acceptance@ == a && s2 == #[trigger] with_record(mid, rec),
        }
    }
}

/// `states` walks the store through the items of a batch.
pub open spec fn batch_walk(states: Seq<KnowledgeStoreV>, scope: TenantScope, items: Seq<ImportItem>, out: Seq<ImportAcceptanceV>) -> bool {
    &&& states.len() == items.len() + 1
    &&& out.len() == items.len()
    &&& forall|k: int| 0 <= k < items.len() ==> item_outcome(states[k], states[k + 1], scope, #[trigger] items[k], out[k])
}

/// Some walk of states leads from `old` to `new` through the batch.
pub open spec fn batch_outcome(old: KnowledgeStoreV, new: KnowledgeStoreV, scope: TenantScope, items: Seq<ImportItem>, out: Seq<ImportAcceptanceV>) -> bool {
    exists|states: Seq<KnowledgeStoreV>|
        #[trigger] batch_walk(states, scope, items, out) && states[0] == old && states.last() == new
}

/// A batch reports every item in place, under the item's own client id:
/// none is dropped or reordered, and a failing item fails alone.
pub proof fn lemma_batch_in_place(
    old: KnowledgeStoreV,
    new: KnowledgeStoreV,
    scope: TenantScope,
    items: Seq<ImportItem>,
    out: Seq<ImportAcceptanceV>,
)
    requires
        batch_outcome(old, new, scope, items, out),
    ensures
        out.len() == items.len(),
        forall|k: int| 0 <= k < items.len() ==> (#[trigger] out[k]).client_item_id == items[k].client_item_id@,
{
    let states = choose|states: Seq<KnowledgeStoreV>|
        #[trigger] batch_walk(states, scope, items, out) && states[0] == old && states.last() == new;
    assert forall|k: int| 0 <= k < items.len() implies (#[trigger] out[k]).client_item_id == items[k].client_item_id@ by {
        assert(item_outcome(states[k], states[k + 1], scope, items[k], out[k]));
    }
}

/// Every import record of `old` stays, at its place, in `new`.
pub open spec fn records_kept(old: KnowledgeStoreV, new: KnowledgeStoreV) -> bool {
    &&& old.import_items.len() <= new.import_items.len()
    &&& forall|i: int| 0 <= i < old.import_items.len() ==> #[trigger] new.import_items[i] == old.import_items[i]
}

/// Importing a new item by its kind writes no import record.
proof fn lemma_kind_keeps_records(s1: KnowledgeStoreV, mid: KnowledgeStoreV, scope: TenantScope, item: ImportItem, a: ImportAcceptanceV)
    requires
        kind_outcome(s1, mid, scope, item, a),
    ensures
        mid.import_items == s1.import_items,
{
    if item.kind == SourceKind::Text && item.text is Some {
        let t = item.text->0;
        let r = choose|r: Result<ImportAcceptanceV, ErrorV>|
            #[trigger] text_import_outcome(s1, mid, scope, item, t@, None, r) && match r {
                Ok(acc) => a == acc,
                Err(e) => a == failed_item(item.client_item_id@, e),
            };
        assert(text_import_outcome(s1, mid, scope, item, t@, None, r));
    }
}

/// One item of a batch keeps every earlier import record.
pub proof fn lemma_item_keeps_records(s1: KnowledgeStoreV, s2: KnowledgeStoreV, scope: TenantScope, item: ImportItem, a: ImportAcceptanceV)
    requires
        item_outcome(s1, s2, scope, item, a),
    ensures
        records_kept(s1, s2),
{
    let key = trimmed(item.client_item_id@);
    if !(key.len() == 0 || utf8(key).len() > 200) && prior_record(s1, scope, key) is None {
        let (mid, rec) = choose|mid: KnowledgeStoreV, rec: ImportRecord|
            #[trigger] kind_outcome(s1, mid, scope, item, a) && rec.scope == scope && rec.key@ == key && rec.item == item
                && rec.acceptance@ == a && s2 == #[trigger] with_record(mid, rec);
        lemma_kind_keeps_records(s1, mid, scope, item, a);
        assert(s2.import_items == s1.import_items.push(rec));
    }
}

/// A batch keeps every import record that was there before it.
pub proof fn lemma_batch_keeps_records(
    old: KnowledgeStoreV,
    new: KnowledgeStoreV,
    scope: TenantScope,
    items: Seq<ImportItem>,
    out: Seq<ImportAcceptanceV>,
)
    requires
        batch_outcome(old, new, scope, items, out),
    ensures
        records_kept(old, new),
{
    let states = choose|states: Seq<KnowledgeStoreV>|
        #[trigger] batch_walk(states, scope, items, out) && states[0] == old && states.last() == new;
    lemma_walk_keeps_records(states, scope, items, out, items.len() as int);
}

proof fn lemma_walk_keeps_records(states: Seq<KnowledgeStoreV>, scope: TenantScope, items: Seq<ImportItem>, out: Seq<ImportAcceptanceV>, k: int)
    requires
        batch_walk(states, scope, items, out),
        0 <= k <= items.len(),
    ensures
        records_kept(states[0], states[k]),
    decreases k,
{
    if k > 0 {
        lemma_walk_keeps_records(states, scope, items, out, k - 1);
        assert(item_outcome(states[k - 1], states[k], scope, items[k - 1], out[k - 1]));
        lemma_item_keeps_records(states[k - 1], states[k], scope, items[k - 1], out[k - 1]);
    }
}

/// Once an item is imported under a new client item id, any later item in
/// that scope under the same trimmed id, however many calls later, replays
/// the stored acceptance when its input is the same, and otherwise fails
/// with a conflict; either way it leaves the store unchanged.
pub proof fn lemma_import_replay_later(
    s0: KnowledgeStoreV,
    s1: KnowledgeStoreV,
    s2: KnowledgeStoreV,
    s3: KnowledgeStoreV,
    scope: TenantScope,
    first: ImportItem,
    first_answer: ImportAcceptanceV,
    later: ImportItem,
    later_answer: ImportAcceptanceV,
)
    requires
        item_outcome(s0, s1, scope, first, first_answer),
        trimmed(first.client_item_id@).len() > 0,
        utf8(trimmed(first.client_item_id@)).len() <= 200,
        prior_record(s0, scope, trimmed(first.client_item_id@)) is None,
        records_kept(s1, s2),
        s2.wf(),
        trimmed(later.client_item_id@) == trimmed(first.client_item_id@),
        item_outcome(s2, s3, scope, later, later_answer),
    ensures
        s3 == s2,
        same_input(first, later) ==> later_answer == first_answer,
        !same_input(first, later) ==> later_answer == failed_item(
            later.client_item_id@,
            err(ErrorCode::Conflict, "client_item_id was already used with different input"@),
        ),
{
    let key = trimmed(first.client_item_id@);
    let (mid, rec) = choose|mid: KnowledgeStoreV, rec: ImportRecord|
        #[trigger] kind_outcome(s0, mid, scope, first, first_answer) && rec.scope == scope && rec.key@ == key && rec.item == first
            && rec.acceptance@ == first_answer && s1 == #[trigger] with_record(mid, rec);
    lemma_kind_keeps_records(s0, mid, scope, first, first_answer);
    assert(s1.import_items == s0.import_items.push(rec));
    let n = s0.import_items.len() as int;
    assert(s1.import_items[n] == rec);
    assert(s2.import_items[n] == rec);
    let t = s2.import_items;
    assert(0 <= n < t.len() && t[n].scope == scope && t[n].key@ == key);
    let j = choose|i: int| 0 <= i < t.len() && (#[trigger] t[i]).scope == scope && t[i].key@ == key;
    assert(t[j].scope == t[n].scope && t[j].key@ == t[n].key@);
    assert(prior_record(s2, scope, key) == Some(rec));
}

pub open spec fn acceptance_views(v: Seq<ImportAcceptance>) -> Seq<ImportAcceptanceV> {
    v.map_values(|a: ImportAcceptance| a@)
}


// ---------------------------------------------------------------------------
// Upload completion.
// ---------------------------------------------------------------------------

/// The completion of session `id` under key digest `kh`, if any.
pub open spec fn completion_of(s: KnowledgeStoreV, id: u128, kh: Seq<char>) -> Option<Completion> {
    if exists|i: int| 0 <= i < s.completions.len() && (#[trigger] s.completions[i]).upload_session_id == id && s.completions[i].key_hash@ == kh {
        Some(s.completions[choose|i: int| 0 <= i < s.completions.len() && (#[trigger] s.completions[i]).upload_session_id == id && s.completions[i].key_hash@ == kh])
    } else {
        None
    }
}

/// The store with completion `c` recorded.
pub open spec fn with_completion(s: KnowledgeStoreV, c: Completion) -> KnowledgeStoreV {
    KnowledgeStoreV {
        completions: if exists|i: int|
            0 <= i < s.completions.len() && (#[trigger] s.completions[i]).upload_session_id == c.upload_session_id
                && s.completions[i].key_hash@ == c.key_hash@ {
            s.completions.update(
                choose|i: int|
                    0 <= i < s.completions.len() && (#[trigger] s.completions[i]).upload_session_id == c.upload_session_id
                        && s.completions[i].key_hash@ == c.key_hash@,
                c,
            )
        } else {
            s.completions.push(c)
        },
        ..s
    }
}

/// The stored object made of a session's verified bytes.
pub open spec fn object_fits(o: StoredObject, s: UploadSession, bytes: Seq<u8>) -> bool {
    &&& o.operator_id == s.operator_id && o.tenant_id == s.tenant_id && o.project_id == s.project_id
    &&& o.object_version == 1
    &&& o.backend@ == "memory"@
    &&& exists|u: u128| #[trigger] uuid_text(u) == o.opaque_key@.skip(14) && o.opaque_key@ == "memory-object/"@ + uuid_text(u)
    &&& o.actual_size == bytes.len()
    &&& o.detected_media_type == s.declared_media_type
    &&& o.sha256@ == sha256_hex_text(bytes)
    &&& o.state == StoredObjectState::Committed
}

/// The import item an upload completes as.
pub open spec fn upload_item_fits(item: ImportItem, s: UploadSession, object_id: u128) -> bool {
    &&& item.client_item_id@ == "upload:"@ + uuid_text(s.upload_session_id)
    &&& item.kind == SourceKind::File
    &&& item.name == s.filename
    &&& item.purpose == s.purpose
    &&& item.text is None && item.url is None
    &&& item.object_id == Some(object_id)
    &&& item.knowledge_release_id is None
}

/// An acceptance with its operation's result set to the upload completion.
pub open spec fn completed_acceptance(acc: ImportAcceptanceV, done: ImportAcceptanceV, session_id: u128, object_id: u128) -> bool {
    acc.operation matches Some(op) && done == ImportAcceptanceV {
        operation: Some(Operation {
            result: Some(OperationResult::UploadCompletion {
                upload_session_id: session_id,
                object_id,
                source_id: match acc.source {
                    Some(src) => Some(src.source_id),
                    None => None,
                },
                knowledge_release_id: match acc.release {
                    Some(rel) => Some(rel.knowledge_release_id),
                    None => None,
                },
            }),
            ..op
        }),
        ..acc
    }
}

/// The store after the session is committed with its object and operation
/// and the completion is recorded.
pub open spec fn committed(
    s2: KnowledgeStoreV,
    new: KnowledgeStoreV,
    s: UploadSession,
    kh: Seq<char>,
    object_id: u128,
    done: ImportAcceptanceV,
) -> bool {
    exists|c: Completion| #![trigger c.upload_session_id]
        c.upload_session_id == s.upload_session_id && c.key_hash@ == kh && c.acceptance@ == done && new == with_completion(
            KnowledgeStoreV {
                upload_sessions: upsert(
                    s2.upload_sessions,
                    keys::<UploadSession>(),
                    UploadSession {
                        state: UploadSessionState::Committed,
                        revision: (s.revision + 1) as i64,
                        committed_object_id: Some(object_id),
                        operation_id: match done.operation {
                            Some(op) => Some(op.id),
                            None => None,
                        },
                        ..s
                    },
                ),
                ..s2
            },
            c,
        )
}

/// What completing verified upload bytes does once the checks pass.
pub open spec fn upload_commit(
    old: KnowledgeStoreV,
    new: KnowledgeStoreV,
    scope: TenantScope,
    s: UploadSession,
    bytes: Seq<u8>,
    kh: Seq<char>,
    r: Result<ImportAcceptanceV, ErrorV>,
) -> bool {
    exists|o: StoredObject, blob: Blob, item: ImportItem| #![trigger object_fits(o, s, bytes), upload_item_fits(item, s, o.object_id), blob.id]
        object_fits(o, s, bytes) && upload_item_fits(item, s, o.object_id) && blob.id == o.object_id && blob.bytes@ == bytes && {
            let s1 = KnowledgeStoreV { object_bytes: upsert(old.object_bytes, keys::<Blob>(), blob), ..old };
            if is_text_media(s.declared_media_type@) {
                if forall|t: Seq<char>| utf8(t) != bytes {
                    r == Err::<ImportAcceptanceV, ErrorV>(invalid("text upload bytes must be valid UTF-8"@)) && new == s1
                } else {
                    exists|t: Seq<char>, ri: Result<ImportAcceptanceV, ErrorV>, s2: KnowledgeStoreV|
                        #[trigger] text_import_outcome(s1, s2, scope, item, t, Some(o), ri) && utf8(t) == bytes && match ri {
                            Err(e) => r == Err::<ImportAcceptanceV, ErrorV>(e) && new == s2,
                            Ok(acc) => (r matches Ok(done) && completed_acceptance(acc, done, s.upload_session_id, o.object_id)
                                && committed(s2, new, s, kh, o.object_id, done)),
                        }
                }
            } else {
                exists|acc: ImportAcceptanceV, job: ImportJob| #![trigger missing_adapter_fits(acc, scope, item, "document_parser"@), job.import_job_id]
                    missing_adapter_fits(acc, scope, item, "document_parser"@) && Some(job@) == acc.import_job && {
                        let s2 = KnowledgeStoreV {
                            sources: upsert(s1.sources, keys::<Source>(), acc.source->0),
                            jobs: upsert(s1.jobs, keys::<ImportJob>(), job),
                            stored_objects: upsert(s1.stored_objects, keys::<StoredObject>(), o),
                            ..s1
                        };
                        r matches Ok(done) && completed_acceptance(acc, done, s.upload_session_id, o.object_id)
                            && committed(s2, new, s, kh, o.object_id, done)
                    }
            }
        }
}

/// What completing an upload session does at instant `now`, and its answer.
pub open spec fn complete_outcome(
    old: KnowledgeStoreV,
    new: KnowledgeStoreV,
    scope: TenantScope,
    id: u128,
    key: Seq<char>,
    now: int,
    r: Result<ImportAcceptanceV, ErrorV>,
) -> bool {
    match scope.project_id {
        None => r == Err::<ImportAcceptanceV, ErrorV>(project_required()) && new == old,
        Some(_) => if trimmed(key).len() == 0 {
            r == Err::<ImportAcceptanceV, ErrorV>(invalid("Idempotency-Key must not be empty"@)) && new == old
        } else {
            let kh = sha256_hex_text(utf8(trimmed(key)));
            match completion_of(old, id, kh) {
                Some(c) => r == Ok::<ImportAcceptanceV, ErrorV>(c.acceptance@) && new == old,
                None => match lookup(old.upload_sessions, keys::<UploadSession>(), id) {
                    None => r == Err::<ImportAcceptanceV, ErrorV>(session_not_found()) && new == old,
                    Some(s) => if !session_in_scope(scope, s) {
                        r == Err::<ImportAcceptanceV, ErrorV>(session_not_found()) && new == old
                    } else if s.expires_at <= now {
                        r == Err::<ImportAcceptanceV, ErrorV>(session_expired()) && new == KnowledgeStoreV {
                            upload_sessions: upsert(
                                old.upload_sessions,
                                keys::<UploadSession>(),
                                UploadSession { state: UploadSessionState::Expired, ..s },
                            ),
                            ..old
                        }
                    } else if s.state == UploadSessionState::Committed {
                        r == Err::<ImportAcceptanceV, ErrorV>(
                            err(ErrorCode::Conflict, "upload session was completed with a different idempotency key"@),
                        ) && new == old
                    } else {
                        match lookup(old.upload_bytes, keys::<Blob>(), id) {
                            None => r == Err::<ImportAcceptanceV, ErrorV>(
                                err(ErrorCode::Conflict, "upload content has not been received"@),
                            ) && new == old,
                            Some(b) => if b.bytes@.len() != s.expected_size || sha256_hex_text(b.bytes@) != s.expected_sha256@ {
                                r == Err::<ImportAcceptanceV, ErrorV>(
                                    invalid("uploaded content size or sha256 does not match upload session"@),
                                ) && new == KnowledgeStoreV {
                                    upload_sessions: upsert(
                                        old.upload_sessions,
                                        keys::<UploadSession>(),
                                        UploadSession {
                                            state: UploadSessionState::Failed,
                                            revision: (s.revision + 1) as i64,
                                            ..s
                                        },
                                    ),
                                    ..old
                                }
                            } else {
                                upload_commit(old, new, scope, s, b.bytes@, kh, r)
                            },
                        }
                    },
                },
            }
        },
    }
}


// ---------------------------------------------------------------------------
// Evidence search.
// ---------------------------------------------------------------------------

/// The source a search may quote a version of: active, and public unless
/// the search is internal.
pub open spec fn quotable_source(s: KnowledgeStoreV, purpose: KnowledgePurpose, v: SourceVersion) -> Option<Source> {
    match lookup(s.sources, keys::<Source>(), v.source_id) {
        Some(src) => if src.state == SourceState::Active && (purpose == KnowledgePurpose::Internal || src.purpose
            == KnowledgePurpose::Public) {
            Some(src)
        } else {
            None
        },
        None => None,
    }
}

/// A chunk quoted as evidence of its source and version.
pub open spec fn evidence_of(src: Source, v: SourceVersion, c: ChunkV) -> EvidenceV {
    EvidenceV {
        source_id: src.source_id,
        source_version_id: v.source_version_id,
        chunk_id: c.chunk_id,
        source_name: src.name@,
        purpose: src.purpose,
        locator: c.locator,
        text: c.text,
        quote: c.text,
    }
}

/// The chunks among `cs` whose lower-case text holds `needle`, in order.
pub open spec fn chunk_evidence(cs: Seq<ChunkV>, src: Source, v: SourceVersion, needle: Seq<char>) -> Seq<EvidenceV>
    decreases cs.len(),
{
    if cs.len() == 0 {
        Seq::empty()
    } else {
        let rest = chunk_evidence(cs.drop_last(), src, v, needle);
        if has_substring(lowercase(cs.last().text), needle) {
            rest.push(evidence_of(src, v, cs.last()))
        } else {
            rest
        }
    }
}

/// The evidence one released version gives.
pub open spec fn version_evidence(s: KnowledgeStoreV, purpose: KnowledgePurpose, needle: Seq<char>, vid: u128) -> Seq<EvidenceV> {
    match lookup(s.versions, keys::<SourceVersion>(), vid) {
        None => Seq::empty(),
        Some(v) => match quotable_source(s, purpose, v) {
            None => Seq::empty(),
            Some(src) => match lookup(s.chunks, keys::<VersionChunks>(), v.source_version_id) {
                None => Seq::empty(),
                Some(vc) => chunk_evidence(chunk_views(vc.chunks@), src, v, needle),
            },
        },
    }
}

/// The evidence of the listed versions, in the order they are listed.
pub open spec fn release_evidence(s: KnowledgeStoreV, purpose: KnowledgePurpose, needle: Seq<char>, refs: Seq<u128>) -> Seq<EvidenceV>
    decreases refs.len(),
{
    if refs.len() == 0 {
        Seq::empty()
    } else {
        release_evidence(s, purpose, needle, refs.drop_last()) + version_evidence(s, purpose, needle, refs.last())
    }
}

/// Strictly before, by version id and then chunk id.
pub open spec fn evidence_before(a: EvidenceV, b: EvidenceV) -> bool {
    a.source_version_id < b.source_version_id || (a.source_version_id == b.source_version_id && a.chunk_id < b.chunk_id)
}

/// Where `x` goes in `s`: before the first entry that sorts after it.
pub open spec fn insertion_point(s: Seq<EvidenceV>, x: EvidenceV) -> int
    decreases s.len(),
{
    if s.len() == 0 {
        0
    } else if evidence_before(x, s[0]) {
        0
    } else {
        1 + insertion_point(s.drop_first(), x)
    }
}

/// `s` ordered by version id and chunk id, entries with equal ids keeping
/// their order.
pub open spec fn sorted_evidence(s: Seq<EvidenceV>) -> Seq<EvidenceV>
    decreases s.len(),
{
    if s.len() == 0 {
        Seq::empty()
    } else {
        let r = sorted_evidence(s.drop_last());
        r.insert(insertion_point(r, s.last()), s.last())
    }
}

pub proof fn lemma_insertion_point(s: Seq<EvidenceV>, x: EvidenceV)
    ensures
        0 <= insertion_point(s, x) <= s.len(),
    decreases s.len(),
{
    if s.len() > 0 {
        lemma_insertion_point(s.drop_first(), x);
    }
}

pub proof fn lemma_sorted_evidence_len(s: Seq<EvidenceV>)
    ensures
        sorted_evidence(s).len() == s.len(),
    decreases s.len(),
{
    if s.len() > 0 {
        lemma_sorted_evidence_len(s.drop_last());
        lemma_insertion_point(sorted_evidence(s.drop_last()), s.last());
    }
}

/// No entry of `s` sorts before an earlier one.
pub open spec fn evidence_ordered(s: Seq<EvidenceV>) -> bool {
    forall|i: int, j: int| 0 <= i < j < s.len() ==> !evidence_before(#[trigger] s[j], #[trigger] s[i])
}

/// In an ordered `s`, what stands before the insertion point of `x` does not
/// sort after `x`, and what stands from it on sorts after `x`.
proof fn lemma_insertion_point_splits(s: Seq<EvidenceV>, x: EvidenceV)
    requires
        evidence_ordered(s),
    ensures
        forall|i: int| 0 <= i < insertion_point(s, x) ==> !evidence_before(x, #[trigger] s[i]),
        forall|i: int| insertion_point(s, x) <= i < s.len() ==> evidence_before(x, #[trigger] s[i]),
    decreases s.len(),
{
    lemma_insertion_point(s, x);
    if s.len() > 0 {
        let t = s.drop_first();
        assert(evidence_ordered(t)) by {
            assert forall|i: int, j: int| 0 <= i < j < t.len() implies !evidence_before(#[trigger] t[j], #[trigger] t[i]) by {
                assert(t[i] == s[i + 1] && t[j] == s[j + 1]);
            }
        }
        lemma_insertion_point_splits(t, x);
        if evidence_before(x, s[0]) {
            assert forall|i: int| 0 <= i < s.len() implies evidence_before(x, #[trigger] s[i]) by {
                if i > 0 {
                    assert(!evidence_before(s[i], s[0]));
                }
            }
        } else {
            assert forall|i: int| 0 <= i < insertion_point(s, x) implies !evidence_before(x, #[trigger] s[i]) by {
                if i > 0 {
                    assert(s[i] == t[i - 1]);
                }
            }
            assert forall|i: int| insertion_point(s, x) <= i < s.len() implies evidence_before(x, #[trigger] s[i]) by {
                assert(s[i] == t[i - 1]);
            }
        }
    }
}

/// The ordered evidence is ordered and holds exactly the given entries.
pub proof fn lemma_sorted_evidence_sorts(s: Seq<EvidenceV>)
    ensures
        evidence_ordered(sorted_evidence(s)),
        sorted_evidence(s).to_multiset() == s.to_multiset(),
    decreases s.len(),
{
    broadcast use vstd::seq_lib::to_multiset_build, vstd::seq_lib::to_multiset_insert;
    if s.len() > 0 {
        let r = sorted_evidence(s.drop_last());
        let x = s.last();
        lemma_sorted_evidence_sorts(s.drop_last());
        lemma_insertion_point(r, x);
        lemma_insertion_point_splits(r, x);
        let p = insertion_point(r, x);
        let t = r.insert(p, x);
        assert forall|i: int, j: int| 0 <= i < j < t.len() implies !evidence_before(#[trigger] t[j], #[trigger] t[i]) by {
            if j < p {
                assert(t[i] == r[i] && t[j] == r[j]);
            } else if j == p {
                assert(t[i] == r[i]);
            } else if i < p {
                assert(t[i] == r[i] && t[j] == r[j - 1]);
            } else if i == p {
                assert(t[j] == r[j - 1]);
            } else {
                assert(t[i] == r[i - 1] && t[j] == r[j - 1]);
            }
        }
        assert(s.drop_last().push(x) =~= s);
        vstd::seq_lib::to_multiset_insert(r, p, x);
        vstd::seq_lib::to_multiset_build(s.drop_last(), x);
    } else {
        assert(s =~= Seq::<EvidenceV>::empty());
    }
}

/// The number of results a search asks for, between 1 and 50.
pub open spec fn search_limit(limit: u32) -> int {
    if limit < 1 {
        1
    } else if limit > 50 {
        50
    } else {
        limit as int
    }
}

/// The first `n` entries of `s`, or all of it when it is shorter.
pub open spec fn first_n<T>(s: Seq<T>, n: int) -> Seq<T> {
    if s.len() <= n {
        s
    } else {
        s.take(n)
    }
}

pub open spec fn evidence_views(v: Seq<KnowledgeEvidence>) -> Seq<EvidenceV> {
    v.map_values(|e: KnowledgeEvidence| e@)
}

/// The release a search reads: the one asked for, else the scope's current one.
pub open spec fn searched_release(s: KnowledgeStoreV, scope: TenantScope, asked: Option<u128>) -> Option<u128> {
    match asked {
        Some(id) => Some(id),
        None => current_of(s, scope),
    }
}

/// What a search answers: evidence-only matches of the lower-case query in
/// the chunks of the release's quotable versions, ordered by version and
/// chunk id, at most `limit` of them.
pub open spec fn search_outcome(
    s: KnowledgeStoreV,
    scope: TenantScope,
    request: KnowledgeSearchRequest,
    r: Result<(Option<u128>, Seq<EvidenceV>), ErrorV>,
) -> bool {
    match scope.project_id {
        None => r == Err::<(Option<u128>, Seq<EvidenceV>), ErrorV>(project_required()),
        Some(_) => if trimmed(request.query@).len() == 0 {
            r == Err::<(Option<u128>, Seq<EvidenceV>), ErrorV>(invalid("query must not be empty"@))
        } else {
            match searched_release(s, scope, request.knowledge_release_id) {
                None => r == Ok::<(Option<u128>, Seq<EvidenceV>), ErrorV>((None, Seq::empty())),
                Some(rid) => match lookup(s.releases, keys::<KnowledgeRelease>(), rid) {
                    Some(rel) => if in_scope(scope, rel.operator_id, rel.tenant_id, rel.project_id) {
                        r == Ok::<(Option<u128>, Seq<EvidenceV>), ErrorV>(
                            (
                                Some(rid),
                                first_n(
                                    sorted_evidence(
                                        release_evidence(s, request.purpose, lowercase(request.query@), rel.source_version_refs@),
                                    ),
                                    search_limit(request.limit),
                                ),
                            ),
                        )
                    } else {
                        r == Err::<(Option<u128>, Seq<EvidenceV>), ErrorV>(err(ErrorCode::NotFound, "knowledge release not found"@))
                    },
                    None => r == Err::<(Option<u128>, Seq<EvidenceV>), ErrorV>(err(ErrorCode::NotFound, "knowledge release not found"@)),
                },
            }
        },
    }
}

pub open spec fn search_view(r: Result<KnowledgeSearchResult, AppError>) -> Result<(Option<u128>, Seq<EvidenceV>), ErrorV> {
    match r {
        Ok(res) => Ok((res.knowledge_release_id, evidence_views(res.evidence@))),
        Err(e) => Err(e@),
    }
}

/// The texts of the evidence joined by blank lines.
pub open spec fn joined_texts(ev: Seq<EvidenceV>) -> Seq<char>
    decreases ev.len(),
{
    if ev.len() == 0 {
        Seq::empty()
    } else if ev.len() == 1 {
        ev[0].text
    } else {
        joined_texts(ev.drop_last()) + "\n\n"@ + ev.last().text
    }
}

/// The answer an evidence-only ask gives from its evidence.
pub open spec fn evidence_answer(ev: Seq<EvidenceV>) -> Seq<char> {
    if ev.len() == 0 {
        "当前资料没有这项信息"@
    } else {
        joined_texts(ev)
    }
}

fn sort_evidence(v: Vec<KnowledgeEvidence>) -> (r: Vec<KnowledgeEvidence>)
    ensures
        evidence_views(r@) == sorted_evidence(evidence_views(v@)),
{
    let ghost all = evidence_views(v@);
    let mut rest = v;
    let mut out: Vec<KnowledgeEvidence> = Vec::new();
    let ghost mut k: int = 0;
    assert(all.skip(0) =~= all);
    assert(all.take(0) =~= Seq::<EvidenceV>::empty());
    while rest.len() > 0
        invariant
            0 <= k <= all.len(),
            evidence_views(rest@) == all.skip(k),
            evidence_views(out@) == sorted_evidence(all.take(k)),
        decreases rest@.len(),
    {
        let ghost before = rest@;
        let x = rest.remove(0);
        proof {
            assert(evidence_views(before).len() == before.len());
            assert(k < all.len());
            assert(evidence_views(before)[0] == x@);
            assert(all.skip(k)[0] == all[k]);
            assert(all[k] == x@);
            assert forall|i: int| 0 <= i < rest@.len() implies #[trigger] evidence_views(rest@)[i] == all.skip(k + 1)[i] by {
                assert(rest@[i] == before[i + 1]);
                assert(evidence_views(before)[i + 1] == all.skip(k)[i + 1]);
            }
            assert(evidence_views(rest@) =~= all.skip(k + 1));
        }
        let ghost ov = evidence_views(out@);
        let mut pos: usize = 0;
        assert(ov.skip(0) =~= ov);
        while pos < out.len() && !(x.source_version_id < out[pos].source_version_id || (x.source_version_id
            == out[pos].source_version_id && x.chunk_id < out[pos].chunk_id))
            invariant
                pos <= out.len(),
                ov == evidence_views(out@),
                insertion_point(ov, x@) == pos + insertion_point(ov.skip(pos as int), x@),
            decreases out.len() - pos,
        {
            proof {
                let t = ov.skip(pos as int);
                assert(t[0] == out@[pos as int]@);
                assert(t.drop_first() =~= ov.skip(pos + 1));
            }
            pos += 1;
        }
        proof {
            let t = ov.skip(pos as int);
            if pos < out.len() {
                assert(t[0] == out@[pos as int]@);
            } else {
                assert(t.len() == 0);
            }
            assert(insertion_point(ov, x@) == pos);
            assert(all.take(k + 1).drop_last() =~= all.take(k));
            assert(all.take(k + 1).last() == x@);
        }
        let ghost old_out = out@;
        out.insert(pos, x);
        proof {
            assert(evidence_views(out@) =~= ov.insert(pos as int, x@)) by {
                assert(out@ =~= old_out.insert(pos as int, x));
            }
            k = k + 1;
        }
    }
    proof {
        assert(all.take(all.len() as int) =~= all);
    }
    out
}


/// What an evidence-only ask answers, given what the search found.
pub open spec fn ask_fits(found: Result<(Option<u128>, Seq<EvidenceV>), ErrorV>, r: Result<KnowledgeAskResult, AppError>) -> bool {
    match found {
        Err(e) => r matches Err(x) && x@ == e,
        Ok((rid, ev)) => r matches Ok(a) && {
            &&& a.knowledge_release_id == rid
            &&& evidence_views(a.evidence@) == ev
            &&& a.mode@ == "evidence_only"@
            &&& a.answer_status == if ev.len() == 0 {
                KnowledgeAnswerStatus::InsufficientEvidence
            } else {
                KnowledgeAnswerStatus::Answered
            }
            &&& a.answer@ == evidence_answer(ev)
            &&& a.capability_missing matches Some(c) && c@ == "llm_answering"@
        },
    }
}

fn join_texts(ev: &Vec<KnowledgeEvidence>) -> (r: String)
    ensures
        r@ == joined_texts(evidence_views(ev@)),
{
    let ghost all = evidence_views(ev@);
    let mut out = String::new();
    let mut i: usize = 0;
    proof {
        reveal_strlit("\n\n");
        assert(all.take(0) =~= Seq::<EvidenceV>::empty());
    }
    while i < ev.len()
        invariant
            i <= ev.len(),
            all == evidence_views(ev@),
            out@ == joined_texts(all.take(i as int)),
        decreases ev.len() - i,
    {
        proof {
            assert(all.take(i + 1).drop_last() =~= all.take(i as int));
            assert(all.take(i + 1).last() == ev@[i as int]@);
        }
        if i == 0 {
            out = ev[i].text.clone();
            assert(all.take(1) =~= seq![all[0]]);
        } else {
            out = out.concat("\n\n");
            out = out.concat(ev[i].text.as_str());
        }
        i += 1;
    }
    assert(all.take(ev.len() as int) =~= all);
    out
}

// ---------------------------------------------------------------------------
// Reads.
// ---------------------------------------------------------------------------

pub open spec fn source_seen(scope: TenantScope) -> spec_fn(Source) -> bool {
    |x: Source| in_scope(scope, x.operator_id, x.tenant_id, x.project_id)
}

pub open spec fn source_rank() -> spec_fn(Source) -> (i128, u128) {
    |x: Source| (0i128, x.source_id)
}

/// An entry of `s` with key `k` that `p` accepts.
pub open spec fn visible<T>(s: Seq<T>, key: spec_fn(T) -> u128, k: u128, p: spec_fn(T) -> bool) -> Option<T> {
    match lookup(s, key, k) {
        Some(x) => if p(x) {
            Some(x)
        } else {
            None
        },
        None => None,
    }
}

/// How many entries of `s` satisfy `p`.
pub open spec fn count_where<T>(s: Seq<T>, p: spec_fn(T) -> bool) -> int
    decreases s.len(),
{
    if s.len() == 0 {
        0
    } else {
        count_where(s.drop_last(), p) + if p(s.last()) {
            1int
        } else {
            0int
        }
    }
}

pub open spec fn job_importing(scope: TenantScope) -> spec_fn(ImportJob) -> bool {
    |j: ImportJob| in_scope(scope, j.operator_id, j.tenant_id, j.project_id) && (j.status == ImportStatus::Queued || j.status
        == ImportStatus::Running)
}

pub proof fn lemma_count_bound<T>(s: Seq<T>, p: spec_fn(T) -> bool)
    ensures
        0 <= count_where(s, p) <= s.len(),
    decreases s.len(),
{
    if s.len() > 0 {
        lemma_count_bound(s.drop_last(), p);
    }
}


/// The entries of `s` that satisfy `p`, in order.
pub open spec fn keep_where<T>(s: Seq<T>, p: spec_fn(T) -> bool) -> Seq<T>
    decreases s.len(),
{
    if s.len() == 0 {
        Seq::empty()
    } else if p(s.last()) {
        keep_where(s.drop_last(), p).push(s.last())
    } else {
        keep_where(s.drop_last(), p)
    }
}

pub open spec fn version_of_source(scope: TenantScope, id: u128) -> spec_fn(SourceVersion) -> bool {
    |v: SourceVersion| v.source_id == id && in_scope(scope, v.operator_id, v.tenant_id, v.project_id)
}

pub open spec fn job_of_source(scope: TenantScope, id: u128) -> spec_fn(ImportJob) -> bool {
    |j: ImportJob| j.source_id == id && in_scope(scope, j.operator_id, j.tenant_id, j.project_id)
}

pub open spec fn job_views(v: Seq<ImportJob>) -> Seq<ImportJobV> {
    v.map_values(|j: ImportJob| j@)
}

/// The chunks of the listed versions, version by version.
pub open spec fn chunks_of_versions(s: KnowledgeStoreV, vs: Seq<SourceVersion>) -> Seq<ChunkV>
    decreases vs.len(),
{
    if vs.len() == 0 {
        Seq::empty()
    } else {
        chunks_of_versions(s, vs.drop_last()) + match lookup(s.chunks, keys::<VersionChunks>(), vs.last().source_version_id) {
            Some(vc) => chunk_views(vc.chunks@),
            None => Seq::empty(),
        }
    }
}

/// Strictly before, by version id and then ordinal.
pub open spec fn chunk_before(a: ChunkV, b: ChunkV) -> bool {
    a.source_version_id < b.source_version_id || (a.source_version_id == b.source_version_id && a.ordinal < b.ordinal)
}

/// Where `x` goes in `s`: before the first chunk that sorts after it.
pub open spec fn chunk_insertion_point(s: Seq<ChunkV>, x: ChunkV) -> int
    decreases s.len(),
{
    if s.len() == 0 {
        0
    } else if chunk_before(x, s[0]) {
        0
    } else {
        1 + chunk_insertion_point(s.drop_first(), x)
    }
}

/// `s` ordered by version id and ordinal, equal keys keeping their order.
pub open spec fn sorted_chunks(s: Seq<ChunkV>) -> Seq<ChunkV>
    decreases s.len(),
{
    if s.len() == 0 {
        Seq::empty()
    } else {
        let r = sorted_chunks(s.drop_last());
        r.insert(chunk_insertion_point(r, s.last()), s.last())
    }
}

proof fn lemma_chunk_insertion_point_bounds(s: Seq<ChunkV>, x: ChunkV)
    ensures
        0 <= chunk_insertion_point(s, x) <= s.len(),
    decreases s.len(),
{
    if s.len() > 0 {
        lemma_chunk_insertion_point_bounds(s.drop_first(), x);
    }
}

/// No entry of `s` sorts before an earlier one.
pub open spec fn chunks_ordered(s: Seq<ChunkV>) -> bool {
    forall|i: int, j: int| 0 <= i < j < s.len() ==> !chunk_before(#[trigger] s[j], #[trigger] s[i])
}

/// In an ordered `s`, what stands before the insertion point of `x` does not
/// sort after `x`, and what stands from it on sorts after `x`.
proof fn lemma_chunk_insertion_point_splits(s: Seq<ChunkV>, x: ChunkV)
    requires
        chunks_ordered(s),
    ensures
        forall|i: int| 0 <= i < chunk_insertion_point(s, x) ==> !chunk_before(x, #[trigger] s[i]),
        forall|i: int| chunk_insertion_point(s, x) <= i < s.len() ==> chunk_before(x, #[trigger] s[i]),
    decreases s.len(),
{
    lemma_chunk_insertion_point_bounds(s, x);
    if s.len() > 0 {
        let t = s.drop_first();
        assert(chunks_ordered(t)) by {
            assert forall|i: int, j: int| 0 <= i < j < t.len() implies !chunk_before(#[trigger] t[j], #[trigger] t[i]) by {
                assert(t[i] == s[i + 1] && t[j] == s[j + 1]);
            }
        }
        lemma_chunk_insertion_point_splits(t, x);
        if chunk_before(x, s[0]) {
            assert forall|i: int| 0 <= i < s.len() implies chunk_before(x, #[trigger] s[i]) by {
                if i > 0 {
                    assert(!chunk_before(s[i], s[0]));
                }
            }
        } else {
            assert forall|i: int| 0 <= i < chunk_insertion_point(s, x) implies !chunk_before(x, #[trigger] s[i]) by {
                if i > 0 {
                    assert(s[i] == t[i - 1]);
                }
            }
            assert forall|i: int| chunk_insertion_point(s, x) <= i < s.len() implies chunk_before(x, #[trigger] s[i]) by {
                assert(s[i] == t[i - 1]);
            }
        }
    }
}

/// The ordered chunks are ordered and are exactly the given chunks.
pub proof fn lemma_sorted_chunks_sorts(s: Seq<ChunkV>)
    ensures
        chunks_ordered(sorted_chunks(s)),
        sorted_chunks(s).to_multiset() == s.to_multiset(),
    decreases s.len(),
{
    broadcast use vstd::seq_lib::to_multiset_build, vstd::seq_lib::to_multiset_insert;
    if s.len() > 0 {
        let r = sorted_chunks(s.drop_last());
        let x = s.last();
        lemma_sorted_chunks_sorts(s.drop_last());
        lemma_chunk_insertion_point_bounds(r, x);
        lemma_chunk_insertion_point_splits(r, x);
        let p = chunk_insertion_point(r, x);
        let t = r.insert(p, x);
        assert forall|i: int, j: int| 0 <= i < j < t.len() implies !chunk_before(#[trigger] t[j], #[trigger] t[i]) by {
            if j < p {
                assert(t[i] == r[i] && t[j] == r[j]);
            } else if j == p {
                assert(t[i] == r[i]);
            } else if i < p {
                assert(t[i] == r[i] && t[j] == r[j - 1]);
            } else if i == p {
                assert(t[j] == r[j - 1]);
            } else {
                assert(t[i] == r[i - 1] && t[j] == r[j - 1]);
            }
        }
        assert(s.drop_last().push(x) =~= s);
        vstd::seq_lib::to_multiset_insert(r, p, x);
        vstd::seq_lib::to_multiset_build(s.drop_last(), x);
    } else {
        assert(s =~= Seq::<ChunkV>::empty());
    }
}

fn sort_chunks(v: Vec<Chunk>) -> (r: Vec<Chunk>)
    ensures
        chunk_views(r@) == sorted_chunks(chunk_views(v@)),
{
    let ghost all = chunk_views(v@);
    let mut rest = v;
    let mut out: Vec<Chunk> = Vec::new();
    let ghost mut k: int = 0;
    assert(all.skip(0) =~= all);
    assert(all.take(0) =~= Seq::<ChunkV>::empty());
    while rest.len() > 0
        invariant
            0 <= k <= all.len(),
            chunk_views(rest@) == all.skip(k),
            chunk_views(out@) == sorted_chunks(all.take(k)),
        decreases rest@.len(),
    {
        let ghost before = rest@;
        let x = rest.remove(0);
        proof {
            assert(chunk_views(before).len() == before.len());
            assert(k < all.len());
            assert(chunk_views(before)[0] == x@);
            assert(all.skip(k)[0] == all[k]);
            assert forall|i: int| 0 <= i < rest@.len() implies #[trigger] chunk_views(rest@)[i] == all.skip(k + 1)[i] by {
                assert(rest@[i] == before[i + 1]);
                assert(chunk_views(before)[i + 1] == all.skip(k)[i + 1]);
            }
            assert(chunk_views(rest@) =~= all.skip(k + 1));
        }
        let ghost ov = chunk_views(out@);
        let mut pos: usize = 0;
        assert(ov.skip(0) =~= ov);
        while pos < out.len() && !(x.source_version_id < out[pos].source_version_id || (x.source_version_id
            == out[pos].source_version_id && x.ordinal < out[pos].ordinal))
            invariant
                pos <= out.len(),
                ov == chunk_views(out@),
                chunk_insertion_point(ov, x@) == pos + chunk_insertion_point(ov.skip(pos as int), x@),
            decreases out.len() - pos,
        {
            proof {
                let t = ov.skip(pos as int);
                assert(t[0] == out@[pos as int]@);
                assert(t.drop_first() =~= ov.skip(pos + 1));
            }
            pos += 1;
        }
        proof {
            let t = ov.skip(pos as int);
            if pos < out.len() {
                assert(t[0] == out@[pos as int]@);
            } else {
                assert(t.len() == 0);
            }
            assert(all.take(k + 1).drop_last() =~= all.take(k));
            assert(all.take(k + 1).last() == x@);
        }
        let ghost old_out = out@;
        out.insert(pos, x);
        proof {
            assert(chunk_views(out@) =~= ov.insert(pos as int, x@)) by {
                assert(out@ =~= old_out.insert(pos as int, x));
            }
            k = k + 1;
        }
    }
    proof {
        assert(all.take(all.len() as int) =~= all);
    }
    out
}

/// What the detail of a source shows: the source, its versions, their
/// chunks by version and ordinal, no facts, and its import jobs.
pub open spec fn detail_fits(s: KnowledgeStoreV, scope: TenantScope, src: Source, d: SourceDetail) -> bool {
    let vs = keep_where(s.versions, version_of_source(scope, src.source_id));
    &&& d.source == src
    &&& d.versions@ == vs
    &&& chunk_views(d.chunks@) == sorted_chunks(chunks_of_versions(s, vs))
    &&& d.facts@.len() == 0
    &&& job_views(d.import_jobs@) == job_views(keep_where(s.jobs, job_of_source(scope, src.source_id)))
}


fn chunk_matches(out: &mut Vec<KnowledgeEvidence>, chunks: &Vec<Chunk>, src: &Source, v: &SourceVersion, needle: &str)
    ensures
        evidence_views(final(out)@) == evidence_views(old(out)@) + chunk_evidence(chunk_views(chunks@), *src, *v, needle@),
{
    let ghost start = evidence_views(out@);
    let ghost cs = chunk_views(chunks@);
    let mut i: usize = 0;
    assert(cs.take(0) =~= Seq::<ChunkV>::empty());
    assert(start + Seq::<EvidenceV>::empty() =~= start);
    while i < chunks.len()
        invariant
            i <= chunks.len(),
            cs == chunk_views(chunks@),
            evidence_views(out@) == start + chunk_evidence(cs.take(i as int), *src, *v, needle@),
        decreases chunks.len() - i,
    {
        let c = &chunks[i];
        proof {
            assert(cs.take(i + 1).drop_last() =~= cs.take(i as int));
            assert(cs.take(i + 1).last() == c@);
        }
        let lower = to_lowercase(c.text.as_str());
        if contains(lower.as_str(), needle) {
            let e = KnowledgeEvidence {
                source_id: src.source_id,
                source_version_id: v.source_version_id,
                chunk_id: c.chunk_id,
                source_name: src.name.clone(),
                purpose: src.purpose,
                locator: c.locator.copy(),
                text: c.text.clone(),
                quote: c.text.clone(),
            };
            let ghost before = out@;
            out.push(e);
            proof {
                assert(evidence_views(out@) =~= evidence_views(before).push(e@));
                assert(e@ == evidence_of(*src, *v, c@));
            }
        }
        i += 1;
    }
    assert(cs.take(chunks.len() as int) =~= cs);
}

impl MemoryKnowledgeRepository {
    fn version_matches(&self, purpose: KnowledgePurpose, needle: &str, vid: u128, out: &mut Vec<KnowledgeEvidence>)
        requires
            self@.wf(),
        ensures
            evidence_views(final(out)@) == evidence_views(old(out)@) + version_evidence(self@, purpose, needle@, vid),
    {
        let ghost start = evidence_views(out@);
        assert(start + Seq::<EvidenceV>::empty() =~= start);
        let k = match position(&self.versions, vid) {
            Some(k) => k,
            None => return,
        };
        let v = &self.versions[k];
        let m = match position(&self.sources, v.source_id) {
            Some(m) => m,
            None => return,
        };
        let src = &self.sources[m];
        if !(src.state == SourceState::Active && (purpose == KnowledgePurpose::Internal || src.purpose
            == KnowledgePurpose::Public)) {
            return;
        }
        let c = match position(&self.chunks, v.source_version_id) {
            Some(c) => c,
            None => return,
        };
        chunk_matches(out, &self.chunks[c].chunks, src, v, needle);
    }

    fn source_keys(&self, scope: &TenantScope) -> (ks: Vec<(i128, u128, usize)>)
        ensures
            keys_of_places(self@.sources, source_seen(*scope), source_rank(), ks@),
    {
        let ghost s = self@.sources;
        let mut ks: Vec<(i128, u128, usize)> = Vec::new();
        let mut i: usize = 0;
        while i < self.sources.len()
            invariant
                i <= self.sources.len(),
                s == self.sources@,
                keys_of_places(s.take(i as int), source_seen(*scope), source_rank(), ks@),
            decreases self.sources.len() - i,
        {
            let x = &self.sources[i];
            let keep = x.operator_id == scope.operator_id && x.tenant_id == scope.tenant_id && scope.project_id == Some(
                x.project_id,
            );
            let ghost before = ks@;
            if keep {
                ks.push((0i128, x.source_id, i));
            }
            proof {
                lemma_keys_of_places_step(s, source_seen(*scope), source_rank(), before, i as int, keep, ks@);
            }
            i += 1;
        }
        assert(s.take(s.len() as int) =~= s);
        ks
    }

    /// The project's sources, ordered by id.
    pub fn list_sources(&self, scope: &TenantScope) -> (r: Result<Vec<Source>, AppError>)
        requires
            self@.wf(),
        ensures
            match scope.project_id {
                None => result_view(r) == Err::<Vec<Source>, ErrorV>(project_required()),
                Some(_) => r matches Ok(v) && is_sorted_listing(self@.sources, source_seen(*scope), source_rank(), v@)
                    && no_repeats(v@),
            },
    {
        require_project(scope)?;
        let ghost s = self@.sources;
        let ks = self.source_keys(scope);
        let sorted = sort_keys(ks);
        proof {
            lemma_keys_of_places_sorted(s, source_seen(*scope), source_rank(), ks@, sorted@);
        }
        let mut out: Vec<Source> = Vec::new();
        let mut k: usize = 0;
        while k < sorted.len()
            invariant
                k <= sorted.len(),
                s == self.sources@,
                keys_of_places(s, source_seen(*scope), source_rank(), sorted@),
                out@.len() == k,
                forall|m: int| 0 <= m < k ==> #[trigger] out@[m] == s[sorted@[m].2 as int],
            decreases sorted.len() - k,
        {
            assert(sorted@[k as int].2 < s.len());
            out.push(self.sources[sorted[k].2].copy());
            k += 1;
        }
        proof {
            assert(s.len() == self.sources.len());
            lemma_listing_from_keys(s, source_seen(*scope), source_rank(), sorted@, out@);
            assert forall|a: int, b: int| 0 <= a < s.len() && 0 <= b < s.len() && #[trigger] s[a] == #[trigger] s[b] implies a
                == b by {
                assert(keys::<Source>()(s[a]) == keys::<Source>()(s[b]));
            }
        }
        Ok(out)
    }

    /// The project's source with this id, if any.
    pub fn get_source(&self, scope: &TenantScope, id: u128) -> (r: Result<Option<Source>, AppError>)
        requires
            self@.wf(),
        ensures
            match scope.project_id {
                None => result_view(r) == Err::<Option<Source>, ErrorV>(project_required()),
                Some(_) => r == Ok::<Option<Source>, AppError>(visible(self@.sources, keys::<Source>(), id, source_seen(*scope))),
            },
    {
        require_project(scope)?;
        match position(&self.sources, id) {
            Some(k) => {
                let x = &self.sources[k];
                if x.operator_id == scope.operator_id && x.tenant_id == scope.tenant_id && scope.project_id == Some(x.project_id) {
                    Ok(Some(x.copy()))
                } else {
                    Ok(None)
                }
            },
            None => Ok(None),
        }
    }

    /// A version of one of the project's sources, if any.
    pub fn get_source_version(&self, scope: &TenantScope, source_id: u128, version_id: u128) -> (r: Result<
        Option<SourceVersion>,
        AppError,
    >)
        requires
            self@.wf(),
        ensures
            match scope.project_id {
                None => result_view(r) == Err::<Option<SourceVersion>, ErrorV>(project_required()),
                Some(_) => r == Ok::<Option<SourceVersion>, AppError>(
                    visible(
                        self@.versions,
                        keys::<SourceVersion>(),
                        version_id,
                        |v: SourceVersion| v.source_id == source_id && in_scope(*scope, v.operator_id, v.tenant_id, v.project_id),
                    ),
                ),
            },
    {
        require_project(scope)?;
        match position(&self.versions, version_id) {
            Some(k) => {
                let v = &self.versions[k];
                if v.source_id == source_id && v.operator_id == scope.operator_id && v.tenant_id == scope.tenant_id
                    && scope.project_id == Some(v.project_id) {
                    Ok(Some(v.copy()))
                } else {
                    Ok(None)
                }
            },
            None => Ok(None),
        }
    }

    /// The project's products; this store derives none.
    pub fn list_products(&self, scope: &TenantScope) -> (r: Result<Vec<Product>, AppError>)
        ensures
            match scope.project_id {
                None => result_view(r) == Err::<Vec<Product>, ErrorV>(project_required()),
                Some(_) => r matches Ok(v) && v@.len() == 0,
            },
    {
        require_project(scope)?;
        Ok(Vec::new())
    }

    /// The project's facts; this store derives none.
    pub fn list_facts(&self, scope: &TenantScope) -> (r: Result<Vec<Fact>, AppError>)
        ensures
            match scope.project_id {
                None => result_view(r) == Err::<Vec<Fact>, ErrorV>(project_required()),
                Some(_) => r matches Ok(v) && v@.len() == 0,
            },
    {
        require_project(scope)?;
        Ok(Vec::new())
    }

    /// The project's current release and its sequence number, if it has one.
    pub fn current_release(&self, scope: &TenantScope) -> (r: Result<CurrentKnowledgeRelease, AppError>)
        requires
            self@.wf(),
        ensures
            match scope.project_id {
                None => result_view(r) == Err::<CurrentKnowledgeRelease, ErrorV>(project_required()),
                Some(p) => r matches Ok(c) && c.project_id == p && c.knowledge_release_id == current_of(self@, *scope)
                    && c.sequence == match current_of(self@, *scope) {
                    Some(id) => match lookup(self@.releases, keys::<KnowledgeRelease>(), id) {
                        Some(rel) => Some(rel.sequence),
                        None => None,
                    },
                    None => None,
                },
            },
    {
        let project_id = require_project(scope)?;
        let release_id = self.current_release_id(scope);
        let sequence = match release_id {
            Some(id) => match position(&self.releases, id) {
                Some(k) => Some(self.releases[k].sequence),
                None => None,
            },
            None => None,
        };
        Ok(CurrentKnowledgeRelease { project_id, knowledge_release_id: release_id, sequence })
    }

    /// The project's release with this id, if any.
    pub fn get_release(&self, scope: &TenantScope, id: u128) -> (r: Result<Option<KnowledgeRelease>, AppError>)
        requires
            self@.wf(),
        ensures
            match scope.project_id {
                None => result_view(r) == Err::<Option<KnowledgeRelease>, ErrorV>(project_required()),
                Some(_) => r matches Ok(found) && match visible(
                    self@.releases,
                    keys::<KnowledgeRelease>(),
                    id,
                    |x: KnowledgeRelease| in_scope(*scope, x.operator_id, x.tenant_id, x.project_id),
                ) {
                    Some(x) => found matches Some(y) && y@ == x@,
                    None => found is None,
                },
            },
    {
        require_project(scope)?;
        match position(&self.releases, id) {
            Some(k) => {
                let x = &self.releases[k];
                if x.operator_id == scope.operator_id && x.tenant_id == scope.tenant_id && scope.project_id == Some(x.project_id) {
                    Ok(Some(x.copy()))
                } else {
                    Ok(None)
                }
            },
            None => Ok(None),
        }
    }

    /// How many sources and facts the project has, how many of its imports
    /// are queued or running, and its current release.
    pub fn overview(&self, scope: &TenantScope) -> (r: Result<KnowledgeOverview, AppError>)
        requires
            self@.wf(),
        ensures
            match scope.project_id {
                None => result_view(r) == Err::<KnowledgeOverview, ErrorV>(project_required()),
                Some(_) => r matches Ok(o) && o.source_count == count_where(self@.sources, source_seen(*scope))
                    && o.fact_count == 0 && o.importing_count == count_where(self@.jobs, job_importing(*scope))
                    && o.current_release_id == current_of(self@, *scope),
            },
    {
        require_project(scope)?;
        let ghost ss = self@.sources;
        let mut sources: u64 = 0;
        let mut i: usize = 0;
        while i < self.sources.len()
            invariant
                i <= self.sources.len(),
                ss == self.sources@,
                sources == count_where(ss.take(i as int), source_seen(*scope)),
            decreases self.sources.len() - i,
        {
            proof {
                assert(ss.take(i + 1).drop_last() =~= ss.take(i as int));
                lemma_count_bound(ss.take(i as int), source_seen(*scope));
            }
            let x = &self.sources[i];
            if x.operator_id == scope.operator_id && x.tenant_id == scope.tenant_id && scope.project_id == Some(x.project_id) {
                sources = sources + 1;
            }
            i += 1;
        }
        assert(ss.take(ss.len() as int) =~= ss);
        let ghost js = self@.jobs;
        let mut importing: u64 = 0;
        let mut j: usize = 0;
        while j < self.jobs.len()
            invariant
                j <= self.jobs.len(),
                js == self.jobs@,
                importing == count_where(js.take(j as int), job_importing(*scope)),
            decreases self.jobs.len() - j,
        {
            proof {
                assert(js.take(j + 1).drop_last() =~= js.take(j as int));
                lemma_count_bound(js.take(j as int), job_importing(*scope));
            }
            let x = &self.jobs[j];
            if x.operator_id == scope.operator_id && x.tenant_id == scope.tenant_id && scope.project_id == Some(x.project_id)
                && (x.status == ImportStatus::Queued || x.status == ImportStatus::Running) {
                importing = importing + 1;
            }
            j += 1;
        }
        assert(js.take(js.len() as int) =~= js);
        Ok(KnowledgeOverview {
            source_count: sources,
            fact_count: 0,
            importing_count: importing,
            current_release_id: self.current_release_id(scope),
        })
    }

    /// A source of the project with its versions, chunks and import jobs.
    pub fn get_source_detail(&self, scope: &TenantScope, id: u128) -> (r: Result<Option<SourceDetail>, AppError>)
        requires
            self@.wf(),
        ensures
            match scope.project_id {
                None => r matches Err(e) && e@ == project_required(),
                Some(_) => r matches Ok(found) && match visible(self@.sources, keys::<Source>(), id, source_seen(*scope)) {
                    None => found is None,
                    Some(src) => found matches Some(d) && detail_fits(self@, *scope, src, d),
                },
            },
    {
        if scope.project_id.is_none() {
            return Err(AppError::invalid_request("project_id is required for knowledge resources"));
        }
        let source = match self.get_source(scope, id) {
            Ok(Some(x)) => x,
            _ => return Ok(None),
        };
        let ghost s = self@;
        let ghost vp = version_of_source(*scope, id);
        let mut versions: Vec<SourceVersion> = Vec::new();
        let mut i: usize = 0;
        assert(s.versions.take(0) =~= Seq::<SourceVersion>::empty());
        while i < self.versions.len()
            invariant
                i <= self.versions.len(),
                s == self@,
                vp == version_of_source(*scope, id),
                versions@ == keep_where(s.versions.take(i as int), vp),
            decreases self.versions.len() - i,
        {
            proof {
                assert(s.versions.take(i + 1).drop_last() =~= s.versions.take(i as int));
                assert(s.versions.take(i + 1).last() == s.versions[i as int]);
            }
            let v = &self.versions[i];
            if v.source_id == id && v.operator_id == scope.operator_id && v.tenant_id == scope.tenant_id && scope.project_id
                == Some(v.project_id) {
                versions.push(v.copy());
            }
            i += 1;
        }
        assert(s.versions.take(s.versions.len() as int) =~= s.versions);
        let mut gathered: Vec<Chunk> = Vec::new();
        let mut k: usize = 0;
        assert(versions@.take(0) =~= Seq::<SourceVersion>::empty());
        while k < versions.len()
            invariant
                k <= versions.len(),
                s == self@,
                self@.wf(),
                chunk_views(gathered@) == chunks_of_versions(s, versions@.take(k as int)),
            decreases versions.len() - k,
        {
            proof {
                assert(versions@.take(k + 1).drop_last() =~= versions@.take(k as int));
                assert(versions@.take(k + 1).last() == versions@[k as int]);
            }
            match position(&self.chunks, versions[k].source_version_id) {
                Some(c) => {
                    let list = &self.chunks[c].chunks;
                    let ghost start = chunk_views(gathered@);
                    let mut m: usize = 0;
                    assert(chunk_views(list@).take(0) =~= Seq::<ChunkV>::empty());
                    assert(start + Seq::<ChunkV>::empty() =~= start);
                    while m < list.len()
                        invariant
                            m <= list.len(),
                            chunk_views(gathered@) == start + chunk_views(list@).take(m as int),
                        decreases list.len() - m,
                    {
                        let ghost before = gathered@;
                        gathered.push(list[m].copy());
                        proof {
                            assert(chunk_views(gathered@) =~= chunk_views(before).push(list@[m as int]@));
                            assert(chunk_views(list@).take(m + 1) =~= chunk_views(list@).take(m as int).push(list@[m as int]@));
                        }
                        m += 1;
                    }
                    assert(chunk_views(list@).take(list.len() as int) =~= chunk_views(list@));
                },
                None => {
                    assert(chunk_views(gathered@) + Seq::<ChunkV>::empty() =~= chunk_views(gathered@));
                },
            }
            k += 1;
        }
        assert(versions@.take(versions.len() as int) =~= versions@);
        let chunks = sort_chunks(gathered);
        let ghost jp = job_of_source(*scope, id);
        let mut jobs: Vec<ImportJob> = Vec::new();
        let mut j: usize = 0;
        assert(s.jobs.take(0) =~= Seq::<ImportJob>::empty());
        assert(job_views(jobs@) =~= job_views(Seq::<ImportJob>::empty()));
        while j < self.jobs.len()
            invariant
                j <= self.jobs.len(),
                s == self@,
                jp == job_of_source(*scope, id),
                job_views(jobs@) == job_views(keep_where(s.jobs.take(j as int), jp)),
            decreases self.jobs.len() - j,
        {
            proof {
                assert(s.jobs.take(j + 1).drop_last() =~= s.jobs.take(j as int));
                assert(s.jobs.take(j + 1).last() == s.jobs[j as int]);
            }
            let x = &self.jobs[j];
            if x.source_id == id && x.operator_id == scope.operator_id && x.tenant_id == scope.tenant_id && scope.project_id
                == Some(x.project_id) {
                let ghost before = jobs@;
                let copied = x.copy();
                jobs.push(copied);
                proof {
                    assert(job_views(jobs@) =~= job_views(before).push(copied@));
                    assert(jp(s.jobs[j as int]));
                    assert(keep_where(s.jobs.take(j + 1), jp) == keep_where(s.jobs.take(j as int), jp).push(s.jobs[j as int]));
                    assert(job_views(keep_where(s.jobs.take(j + 1), jp)) =~= job_views(keep_where(s.jobs.take(j as int), jp)).push(
                        s.jobs[j as int]@,
                    ));
                }
            }
            j += 1;
        }
        assert(s.jobs.take(s.jobs.len() as int) =~= s.jobs);
        Ok(Some(SourceDetail { source, versions, chunks, facts: Vec::new(), import_jobs: jobs }))
    }

    /// Answers from evidence only: the matching chunks joined, or a fixed
    /// reply when nothing matches; no model is asked.
    pub fn ask(&self, scope: &TenantScope, request: KnowledgeSearchRequest) -> (r: Result<KnowledgeAskResult, AppError>)
        requires
            self@.wf(),
        ensures
            exists|found: Result<(Option<u128>, Seq<EvidenceV>), ErrorV>|
                search_outcome(self@, *scope, request, found) && #[trigger] ask_fits(found, r),
    {
        let ghost req = request;
        let search = self.search(scope, request);
        let ghost found = search_view(search);
        let search = match search {
            Ok(s) => s,
            Err(e) => {
                let r = Err(e);
                assert(ask_fits(found, r));
                return r;
            },
        };
        proof {
            reveal_strlit("evidence_only");
            reveal_strlit("llm_answering");
        }
        let empty = search.evidence.len() == 0;
        let answer = if empty {
            String::from_str("当前资料没有这项信息")
        } else {
            join_texts(&search.evidence)
        };
        let r = Ok(KnowledgeAskResult {
            knowledge_release_id: search.knowledge_release_id,
            mode: String::from_str("evidence_only"),
            answer_status: if empty {
                KnowledgeAnswerStatus::InsufficientEvidence
            } else {
                KnowledgeAnswerStatus::Answered
            },
            answer,
            evidence: search.evidence,
            capability_missing: Some(String::from_str("llm_answering")),
        });
        assert(ask_fits(found, r));
        r
    }

    /// Searches a release for chunks that hold the query, as evidence only.
    pub fn search(&self, scope: &TenantScope, request: KnowledgeSearchRequest) -> (r: Result<KnowledgeSearchResult, AppError>)
        requires
            self@.wf(),
        ensures
            search_outcome(self@, *scope, request, search_view(r)),
            r matches Ok(res) ==> res.capability_missing is None,
    {
        require_project(scope)?;
        if trim(request.query.as_str()).unicode_len() == 0 {
            return Err(AppError::invalid_request("query must not be empty"));
        }
        let limit: usize = if request.limit < 1 {
            1
        } else if request.limit > 50 {
            50
        } else {
            request.limit as usize
        };
        let release_id = match request.knowledge_release_id {
            Some(id) => Some(id),
            None => self.current_release_id(scope),
        };
        let release_id = match release_id {
            Some(id) => id,
            None => {
                let empty: Vec<KnowledgeEvidence> = Vec::new();
                assert(evidence_views(empty@) =~= Seq::<EvidenceV>::empty());
                let r = Ok(KnowledgeSearchResult { knowledge_release_id: None, evidence: empty, capability_missing: None });
                return r;
            },
        };
        let k = match position(&self.releases, release_id) {
            Some(k) => k,
            None => return Err(AppError::not_found("knowledge release not found")),
        };
        let release = &self.releases[k];
        if !(release.operator_id == scope.operator_id && release.tenant_id == scope.tenant_id && scope.project_id == Some(
            release.project_id,
        )) {
            return Err(AppError::not_found("knowledge release not found"));
        }
        let needle = to_lowercase(request.query.as_str());
        let refs = &release.source_version_refs;
        let ghost rs = refs@;
        let mut found: Vec<KnowledgeEvidence> = Vec::new();
        let mut i: usize = 0;
        assert(rs.take(0) =~= Seq::<u128>::empty());
        while i < refs.len()
            invariant
                i <= refs.len(),
                rs == refs@,
                self@.wf(),
                evidence_views(found@) == release_evidence(self@, request.purpose, needle@, rs.take(i as int)),
            decreases refs.len() - i,
        {
            proof {
                assert(rs.take(i + 1).drop_last() =~= rs.take(i as int));
                assert(rs.take(i + 1).last() == rs[i as int]);
            }
            self.version_matches(request.purpose, needle.as_str(), refs[i], &mut found);
            i += 1;
        }
        assert(rs.take(refs.len() as int) =~= rs);
        let mut evidence = sort_evidence(found);
        let ghost sorted = evidence_views(evidence@);
        let ghost before = evidence@;
        evidence.truncate(limit);
        proof {
            if sorted.len() > limit {
                assert(evidence_views(evidence@) =~= sorted.take(limit as int));
            } else {
                assert(evidence@ =~= before);
            }
        }
        Ok(KnowledgeSearchResult { knowledge_release_id: Some(release_id), evidence, capability_missing: None })
    }
}

/// The digest a completion is remembered under: that of the trimmed key.
pub open spec fn key_digest(key: Seq<char>) -> Seq<char> {
    sha256_hex_text(utf8(trimmed(key)))
}

proof fn lemma_completion_pushed(x: KnowledgeStoreV, c: Completion)
    requires
        completion_of(x, c.upload_session_id, c.key_hash@) is None,
    ensures
        completion_of(with_completion(x, c), c.upload_session_id, c.key_hash@) == Some(c),
{
    let n = with_completion(x, c);
    assert(n.completions == x.completions.push(c));
    let last = x.completions.len() as int;
    assert(n.completions[last] == c);
    let j = choose|j: int|
        0 <= j < n.completions.len() && (#[trigger] n.completions[j]).upload_session_id == c.upload_session_id
            && n.completions[j].key_hash@ == c.key_hash@;
    if j < last {
        assert(x.completions[j] == n.completions[j]);
    }
}

proof fn lemma_commit_records(old: KnowledgeStoreV, new: KnowledgeStoreV, scope: TenantScope, s: UploadSession, bytes: Seq<u8>, kh: Seq<char>, a: ImportAcceptanceV)
    requires
        upload_commit(old, new, scope, s, bytes, kh, Ok(a)),
        completion_of(old, s.upload_session_id, kh) is None,
    ensures
        completion_of(new, s.upload_session_id, kh) matches Some(c) && c.acceptance@ == a,
{
    let (o, blob, item) = choose|o: StoredObject, blob: Blob, item: ImportItem|
        #![trigger object_fits(o, s, bytes), upload_item_fits(item, s, o.object_id), blob.id]
        object_fits(o, s, bytes) && upload_item_fits(item, s, o.object_id) && blob.id == o.object_id && blob.bytes@ == bytes && {
            let s1 = KnowledgeStoreV { object_bytes: upsert(old.object_bytes, keys::<Blob>(), blob), ..old };
            if is_text_media(s.declared_media_type@) {
                if forall|t: Seq<char>| utf8(t) != bytes {
                    Ok::<ImportAcceptanceV, ErrorV>(a) == Err::<ImportAcceptanceV, ErrorV>(invalid("text upload bytes must be valid UTF-8"@)) && new == s1
                } else {
                    exists|t: Seq<char>, ri: Result<ImportAcceptanceV, ErrorV>, s2: KnowledgeStoreV|
                        #[trigger] text_import_outcome(s1, s2, scope, item, t, Some(o), ri) && utf8(t) == bytes && match ri {
                            Err(e) => Ok::<ImportAcceptanceV, ErrorV>(a) == Err::<ImportAcceptanceV, ErrorV>(e) && new == s2,
                            Ok(acc) => (Ok::<ImportAcceptanceV, ErrorV>(a) matches Ok(done) && completed_acceptance(acc, done, s.upload_session_id, o.object_id)
                                && committed(s2, new, s, kh, o.object_id, done)),
                        }
                }
            } else {
                exists|acc: ImportAcceptanceV, job: ImportJob| #![trigger missing_adapter_fits(acc, scope, item, "document_parser"@), job.import_job_id]
                    missing_adapter_fits(acc, scope, item, "document_parser"@) && Some(job@) == acc.import_job && {
                        let s2 = KnowledgeStoreV {
                            sources: upsert(s1.sources, keys::<Source>(), acc.source->0),
                            jobs: upsert(s1.jobs, keys::<ImportJob>(), job),
                            stored_objects: upsert(s1.stored_objects, keys::<StoredObject>(), o),
                            ..s1
                        };
                        Ok::<ImportAcceptanceV, ErrorV>(a) matches Ok(done) && completed_acceptance(acc, done, s.upload_session_id, o.object_id)
                            && committed(s2, new, s, kh, o.object_id, done)
                    }
            }
        };
    let s1 = KnowledgeStoreV { object_bytes: upsert(old.object_bytes, keys::<Blob>(), blob), ..old };
    let s2 = if is_text_media(s.declared_media_type@) {
        let (t, ri, s2) = choose|t: Seq<char>, ri: Result<ImportAcceptanceV, ErrorV>, s2: KnowledgeStoreV|
            #[trigger] text_import_outcome(s1, s2, scope, item, t, Some(o), ri) && utf8(t) == bytes && match ri {
                Err(e) => Ok::<ImportAcceptanceV, ErrorV>(a) == Err::<ImportAcceptanceV, ErrorV>(e) && new == s2,
                Ok(acc) => (Ok::<ImportAcceptanceV, ErrorV>(a) matches Ok(done) && completed_acceptance(acc, done, s.upload_session_id, o.object_id)
                    && committed(s2, new, s, kh, o.object_id, done)),
            };
        let stored = choose|stored: KnowledgeRelease| #![trigger stored.knowledge_release_id]
            stored@ == ri->Ok_0.release->0 && s2 == with_release(
                KnowledgeStoreV {
                    sources: upsert(s1.sources, keys::<Source>(), ri->Ok_0.source->0),
                    versions: upsert(s1.versions, keys::<SourceVersion>(), ri->Ok_0.source_version->0),
                    chunks: s2.chunks,
                    jobs: s2.jobs,
                    stored_objects: upsert(s1.stored_objects, keys::<StoredObject>(), o),
                    ..s1
                },
                scope,
                stored,
            );
        assert(s2.completions == old.completions);
        s2
    } else {
        let (acc, job) = choose|acc: ImportAcceptanceV, job: ImportJob| #![trigger missing_adapter_fits(acc, scope, item, "document_parser"@), job.import_job_id]
            missing_adapter_fits(acc, scope, item, "document_parser"@) && Some(job@) == acc.import_job && {
                let s2 = KnowledgeStoreV {
                    sources: upsert(s1.sources, keys::<Source>(), acc.source->0),
                    jobs: upsert(s1.jobs, keys::<ImportJob>(), job),
                    stored_objects: upsert(s1.stored_objects, keys::<StoredObject>(), o),
                    ..s1
                };
                Ok::<ImportAcceptanceV, ErrorV>(a) matches Ok(done) && completed_acceptance(acc, done, s.upload_session_id, o.object_id)
                    && committed(s2, new, s, kh, o.object_id, done)
            };
        KnowledgeStoreV {
            sources: upsert(s1.sources, keys::<Source>(), acc.source->0),
            jobs: upsert(s1.jobs, keys::<ImportJob>(), job),
            stored_objects: upsert(s1.stored_objects, keys::<StoredObject>(), o),
            ..s1
        }
    };
    assert(committed(s2, new, s, kh, o.object_id, a));
    let c = choose|c: Completion| #![trigger c.upload_session_id]
        c.upload_session_id == s.upload_session_id && c.key_hash@ == kh && c.acceptance@ == a && new == with_completion(
            KnowledgeStoreV {
                upload_sessions: upsert(
                    s2.upload_sessions,
                    keys::<UploadSession>(),
                    UploadSession {
                        state: UploadSessionState::Committed,
                        revision: (s.revision + 1) as i64,
                        committed_object_id: Some(o.object_id),
                        operation_id: match a.operation {
                            Some(op) => Some(op.id),
                            None => None,
                        },
                        ..s
                    },
                ),
                ..s2
            },
            c,
        );
    let x = KnowledgeStoreV {
        upload_sessions: upsert(
            s2.upload_sessions,
            keys::<UploadSession>(),
            UploadSession {
                state: UploadSessionState::Committed,
                revision: (s.revision + 1) as i64,
                committed_object_id: Some(o.object_id),
                operation_id: match a.operation {
                    Some(op) => Some(op.id),
                    None => None,
                },
                ..s
            },
        ),
        ..s2
    };
    assert(x.completions == old.completions);
    lemma_completion_pushed(x, c);
}

/// A completed upload answers the same acceptance, and changes nothing, when
/// it is completed again with the same idempotency key.
pub proof fn lemma_completion_replay(
    s0: KnowledgeStoreV,
    s1: KnowledgeStoreV,
    s2: KnowledgeStoreV,
    scope: TenantScope,
    id: u128,
    key: Seq<char>,
    first: int,
    second: int,
    a: ImportAcceptanceV,
    r: Result<ImportAcceptanceV, ErrorV>,
)
    requires
        complete_outcome(s0, s1, scope, id, key, first, Ok(a)),
        complete_outcome(s1, s2, scope, id, key, second, r),
    ensures
        r == Ok::<ImportAcceptanceV, ErrorV>(a),
        s2 == s1,
{
    let kh = key_digest(key);
    match completion_of(s0, id, kh) {
        Some(c) => {},
        None => {
            let s = lookup(s0.upload_sessions, keys::<UploadSession>(), id)->0;
            let k = key_at(s0.upload_sessions, keys::<UploadSession>(), id)->0;
            assert(s.upload_session_id == id);
            let b = lookup(s0.upload_bytes, keys::<Blob>(), id)->0;
            lemma_commit_records(s0, s1, scope, s, b.bytes@, kh, a);
        },
    }
}

pub open spec fn all_evidence(ev: Seq<EvidenceV>, p: spec_fn(EvidenceV) -> bool) -> bool {
    forall|i: int| 0 <= i < ev.len() ==> p(#[trigger] ev[i])
}

proof fn lemma_sorted_keeps(ev: Seq<EvidenceV>, p: spec_fn(EvidenceV) -> bool)
    requires
        all_evidence(ev, p),
    ensures
        all_evidence(sorted_evidence(ev), p),
    decreases ev.len(),
{
    if ev.len() > 0 {
        let r = sorted_evidence(ev.drop_last());
        assert(all_evidence(ev.drop_last(), p)) by {
            assert forall|i: int| 0 <= i < ev.drop_last().len() implies p(#[trigger] ev.drop_last()[i]) by {
                assert(ev.drop_last()[i] == ev[i]);
            }
        }
        lemma_sorted_keeps(ev.drop_last(), p);
        let pos = insertion_point(r, ev.last());
        lemma_insertion_point(r, ev.last());
        let t = r.insert(pos, ev.last());
        assert forall|i: int| 0 <= i < t.len() implies p(#[trigger] t[i]) by {
            if i < pos {
                assert(t[i] == r[i]);
            } else if i > pos {
                assert(t[i] == r[i - 1]);
            }
        }
    }
}

proof fn lemma_chunk_evidence_purpose(cs: Seq<ChunkV>, src: Source, v: SourceVersion, needle: Seq<char>)
    ensures
        all_evidence(chunk_evidence(cs, src, v, needle), |e: EvidenceV| e.purpose == src.purpose),
    decreases cs.len(),
{
    if cs.len() > 0 {
        lemma_chunk_evidence_purpose(cs.drop_last(), src, v, needle);
    }
}

/// Chunk evidence quotes only chunks whose lower-case text holds the
/// needle, and quotes one when some chunk does.
proof fn lemma_chunk_evidence_matches(cs: Seq<ChunkV>, src: Source, v: SourceVersion, needle: Seq<char>)
    ensures
        forall|k: int|
            0 <= k < chunk_evidence(cs, src, v, needle).len() ==> has_substring(
                lowercase(#[trigger] chunk_evidence(cs, src, v, needle)[k].text),
                needle,
            ),
        (exists|j: int| 0 <= j < cs.len() && has_substring(lowercase(#[trigger] cs[j].text), needle)) ==> chunk_evidence(
            cs,
            src,
            v,
            needle,
        ).len() > 0,
        forall|j: int|
            0 <= j < cs.len() && has_substring(lowercase(#[trigger] cs[j].text), needle) ==> chunk_evidence(cs, src, v, needle).contains(
                evidence_of(src, v, cs[j]),
            ),
    decreases cs.len(),
{
    if cs.len() > 0 {
        let t = cs.drop_last();
        lemma_chunk_evidence_matches(t, src, v, needle);
        let rest = chunk_evidence(t, src, v, needle);
        let all = chunk_evidence(cs, src, v, needle);
        assert forall|k: int| 0 <= k < all.len() implies has_substring(lowercase(#[trigger] all[k].text), needle) by {
            if k < rest.len() {
                assert(all[k] == rest[k]);
            }
        }
        if exists|j: int| 0 <= j < cs.len() && has_substring(lowercase(#[trigger] cs[j].text), needle) {
            let j = choose|j: int| 0 <= j < cs.len() && has_substring(lowercase(#[trigger] cs[j].text), needle);
            if j < t.len() {
                assert(t[j] == cs[j]);
            }
        }
        assert forall|j: int| 0 <= j < cs.len() && has_substring(lowercase(#[trigger] cs[j].text), needle) implies all.contains(
            evidence_of(src, v, cs[j]),
        ) by {
            if j < t.len() {
                assert(t[j] == cs[j]);
                assert(rest.contains(evidence_of(src, v, cs[j])));
                let q = choose|q: int| 0 <= q < rest.len() && rest[q] == evidence_of(src, v, cs[j]);
                assert(all[q] == rest[q]);
            } else {
                assert(all.last() == evidence_of(src, v, cs[j]));
            }
        }
    }
}

/// Release evidence quotes only matching chunks, and quotes one when a
/// listed version yields one.
proof fn lemma_release_evidence_matches(s: KnowledgeStoreV, purpose: KnowledgePurpose, needle: Seq<char>, refs: Seq<u128>)
    ensures
        forall|k: int|
            0 <= k < release_evidence(s, purpose, needle, refs).len() ==> has_substring(
                lowercase(#[trigger] release_evidence(s, purpose, needle, refs)[k].text),
                needle,
            ),
        forall|i: int|
            0 <= i < refs.len() && #[trigger] version_evidence(s, purpose, needle, refs[i]).len() > 0 ==> release_evidence(
                s,
                purpose,
                needle,
                refs,
            ).len() > 0,
        forall|i: int, x: EvidenceV|
            0 <= i < refs.len() && #[trigger] version_evidence(s, purpose, needle, refs[i]).contains(x) ==> release_evidence(
                s,
                purpose,
                needle,
                refs,
            ).contains(x),
    decreases refs.len(),
{
    if refs.len() > 0 {
        let t = refs.drop_last();
        lemma_release_evidence_matches(s, purpose, needle, t);
        let front = release_evidence(s, purpose, needle, t);
        let back = version_evidence(s, purpose, needle, refs.last());
        match lookup(s.versions, keys::<SourceVersion>(), refs.last()) {
            None => {},
            Some(v) => match quotable_source(s, purpose, v) {
                None => {},
                Some(src) => match lookup(s.chunks, keys::<VersionChunks>(), v.source_version_id) {
                    None => {},
                    Some(vc) => {
                        lemma_chunk_evidence_matches(chunk_views(vc.chunks@), src, v, needle);
                    },
                },
            },
        }
        let all = front + back;
        assert forall|k: int| 0 <= k < all.len() implies has_substring(lowercase(#[trigger] all[k].text), needle) by {
            if k < front.len() {
                assert(all[k] == front[k]);
            } else {
                assert(all[k] == back[k - front.len()]);
            }
        }
        assert forall|i: int| 0 <= i < refs.len() && #[trigger] version_evidence(s, purpose, needle, refs[i]).len() > 0 implies all.len()
            > 0 by {
            if i < t.len() {
                assert(t[i] == refs[i]);
            }
        }
        assert forall|i: int, x: EvidenceV|
            0 <= i < refs.len() && #[trigger] version_evidence(s, purpose, needle, refs[i]).contains(x) implies all.contains(x) by {
            if i < t.len() {
                assert(t[i] == refs[i]);
                let q = choose|q: int| 0 <= q < front.len() && front[q] == x;
                assert(all[q] == front[q]);
            } else {
                let q = choose|q: int| 0 <= q < back.len() && back[q] == x;
                assert(all[front.len() + q] == back[q]);
            }
        }
    }
}

/// Search compares lower case with lower case: every piece of evidence it
/// gives quotes a chunk whose lower-cased text holds the lower-cased query;
/// there are at most `limit` of them (at least one is allowed, at most 50),
/// ordered by version id and then chunk id.
pub proof fn lemma_search_evidence_matches_query(
    s: KnowledgeStoreV,
    scope: TenantScope,
    request: KnowledgeSearchRequest,
    rid: u128,
    ev: Seq<EvidenceV>,
)
    requires
        search_outcome(s, scope, request, Ok::<(Option<u128>, Seq<EvidenceV>), ErrorV>((Some(rid), ev))),
    ensures
        forall|k: int| 0 <= k < ev.len() ==> has_substring(lowercase((#[trigger] ev[k]).text), lowercase(request.query@)),
        ev.len() <= 50,
        ev.len() <= request.limit || ev.len() <= 1,
        forall|i: int, j: int|
            0 <= i < j < ev.len() ==> (#[trigger] ev[i]).source_version_id < (#[trigger] ev[j]).source_version_id || (
            ev[i].source_version_id == ev[j].source_version_id && ev[i].chunk_id <= ev[j].chunk_id),
{
    broadcast use vstd::seq_lib::to_multiset_contains;
    let rel = lookup(s.releases, keys::<KnowledgeRelease>(), rid)->0;
    let needle = lowercase(request.query@);
    let all = release_evidence(s, request.purpose, needle, rel.source_version_refs@);
    lemma_release_evidence_matches(s, request.purpose, needle, rel.source_version_refs@);
    lemma_sorted_evidence_sorts(all);
    let sorted = sorted_evidence(all);
    assert forall|k: int| 0 <= k < ev.len() implies has_substring(lowercase((#[trigger] ev[k]).text), needle) by {
        assert(ev[k] == sorted[k]);
        assert(sorted.contains(sorted[k]));
        assert(sorted.to_multiset().count(sorted[k]) > 0);
        assert(all.contains(ev[k]));
        let j = choose|j: int| 0 <= j < all.len() && all[j] == ev[k];
        assert(has_substring(lowercase(all[j].text), needle));
    }
    assert forall|i: int, j: int| 0 <= i < j < ev.len() implies (#[trigger] ev[i]).source_version_id < (
    #[trigger] ev[j]).source_version_id || (ev[i].source_version_id == ev[j].source_version_id && ev[i].chunk_id
        <= ev[j].chunk_id) by {
        assert(ev[i] == sorted[i] && ev[j] == sorted[j]);
        assert(!evidence_before(sorted[j], sorted[i]));
    }
}

/// Search finds what is there, whatever the case of the query: when a
/// version listed by the searched release has a quotable source and a chunk
/// whose lower-cased text holds the lower-cased query, the search gives
/// evidence, and quotes that very chunk unless the limit cut the answer.
pub proof fn lemma_search_finds_matching_chunk(
    s: KnowledgeStoreV,
    scope: TenantScope,
    request: KnowledgeSearchRequest,
    rid: u128,
    ev: Seq<EvidenceV>,
    rel: KnowledgeRelease,
    i: int,
    v: SourceVersion,
    src: Source,
    vc: VersionChunks,
    j: int,
)
    requires
        search_outcome(s, scope, request, Ok::<(Option<u128>, Seq<EvidenceV>), ErrorV>((Some(rid), ev))),
        lookup(s.releases, keys::<KnowledgeRelease>(), rid) == Some(rel),
        0 <= i < rel.source_version_refs@.len(),
        lookup(s.versions, keys::<SourceVersion>(), rel.source_version_refs@[i]) == Some(v),
        quotable_source(s, request.purpose, v) == Some(src),
        lookup(s.chunks, keys::<VersionChunks>(), v.source_version_id) == Some(vc),
        0 <= j < vc.chunks@.len(),
        has_substring(lowercase(vc.chunks@[j]@.text), lowercase(request.query@)),
    ensures
        ev.len() > 0,
        ev.len() < 50 && ev.len() < request.limit ==> ev.contains(evidence_of(src, v, vc.chunks@[j]@)),
{
    broadcast use vstd::seq_lib::to_multiset_contains;
    let needle = lowercase(request.query@);
    let refs = rel.source_version_refs@;
    let cs = chunk_views(vc.chunks@);
    assert(cs[j] == vc.chunks@[j]@);
    lemma_chunk_evidence_matches(cs, src, v, needle);
    assert(version_evidence(s, request.purpose, needle, refs[i]).len() > 0);
    lemma_release_evidence_matches(s, request.purpose, needle, refs);
    let all = release_evidence(s, request.purpose, needle, refs);
    lemma_sorted_evidence_len(all);
    assert(search_limit(request.limit) >= 1);
    let x = evidence_of(src, v, vc.chunks@[j]@);
    assert(version_evidence(s, request.purpose, needle, refs[i]).contains(x));
    assert(all.contains(x));
    lemma_sorted_evidence_sorts(all);
    let sorted = sorted_evidence(all);
    assert(all.to_multiset().count(x) > 0);
    assert(sorted.contains(x));
    if ev.len() < 50 && ev.len() < request.limit {
        assert(ev == sorted);
    }
}

proof fn lemma_release_evidence_public(s: KnowledgeStoreV, needle: Seq<char>, refs: Seq<u128>)
    ensures
        all_evidence(release_evidence(s, KnowledgePurpose::Public, needle, refs), |e: EvidenceV| e.purpose == KnowledgePurpose::Public),
    decreases refs.len(),
{
    if refs.len() > 0 {
        lemma_release_evidence_public(s, needle, refs.drop_last());
        let front = release_evidence(s, KnowledgePurpose::Public, needle, refs.drop_last());
        let back = version_evidence(s, KnowledgePurpose::Public, needle, refs.last());
        match lookup(s.versions, keys::<SourceVersion>(), refs.last()) {
            None => {},
            Some(v) => match quotable_source(s, KnowledgePurpose::Public, v) {
                None => {},
                Some(src) => match lookup(s.chunks, keys::<VersionChunks>(), v.source_version_id) {
                    None => {},
                    Some(vc) => {
                        lemma_chunk_evidence_purpose(chunk_views(vc.chunks@), src, v, needle);
                    },
                },
            },
        }
        let all = front + back;
        assert forall|i: int| 0 <= i < all.len() implies (#[trigger] all[i]).purpose == KnowledgePurpose::Public by {
            if i < front.len() {
                assert(all[i] == front[i]);
            } else {
                assert(all[i] == back[i - front.len()]);
            }
        }
    }
}

/// A search that is not internal quotes public sources only.
pub proof fn lemma_public_search_quotes_public_sources(
    s: KnowledgeStoreV,
    scope: TenantScope,
    request: KnowledgeSearchRequest,
    found: Option<u128>,
    ev: Seq<EvidenceV>,
)
    requires
        request.purpose == KnowledgePurpose::Public,
        search_outcome(s, scope, request, Ok((found, ev))),
    ensures
        forall|i: int| 0 <= i < ev.len() ==> (#[trigger] ev[i]).purpose == KnowledgePurpose::Public,
{
    let p = |e: EvidenceV| e.purpose == KnowledgePurpose::Public;
    match searched_release(s, scope, request.knowledge_release_id) {
        None => {},
        Some(rid) => {
            let rel = lookup(s.releases, keys::<KnowledgeRelease>(), rid)->0;
            let all = release_evidence(s, request.purpose, lowercase(request.query@), rel.source_version_refs@);
            lemma_release_evidence_public(s, lowercase(request.query@), rel.source_version_refs@);
            lemma_sorted_keeps(all, p);
            let sorted = sorted_evidence(all);
            assert forall|i: int| 0 <= i < ev.len() implies (#[trigger] ev[i]).purpose == KnowledgePurpose::Public by {
                assert(ev[i] == sorted[i]);
                assert(p(sorted[i]));
            }
        },
    }
}

/// A source, version or release of another operator, tenant or project is
/// not found through a scope.
pub proof fn lemma_other_scope_sees_nothing(s: KnowledgeStoreV, scope: TenantScope, id: u128)
    requires
        s.wf(),
        lookup(s.sources, keys::<Source>(), id) matches Some(x) && !in_scope(scope, x.operator_id, x.tenant_id, x.project_id),
    ensures
        visible(s.sources, keys::<Source>(), id, source_seen(scope)) is None,
{
}

fn release_scope_position(v: &Vec<CurrentRelease>, scope: &TenantScope) -> (r: Option<usize>)
    ensures
        match r {
            Some(i) => i < v@.len() && v@[i as int].scope == *scope,
            None => forall|i: int| 0 <= i < v@.len() ==> (#[trigger] v@[i]).scope != *scope,
        },
{
    let mut i: usize = 0;
    while i < v.len()
        invariant
            i <= v.len(),
            forall|k: int| 0 <= k < i ==> (#[trigger] v@[k]).scope != *scope,
        decreases v.len() - i,
    {
        if v[i].scope == *scope {
            return Some(i);
        }
        i += 1;
    }
    None
}

pub open spec fn released_in(s: KnowledgeStoreV, scope: TenantScope) -> spec_fn(SourceVersion) -> bool {
    |v: SourceVersion| version_released(s, scope, v)
}

pub open spec fn version_key() -> spec_fn(SourceVersion) -> (i128, u128) {
    |v: SourceVersion| (0i128, v.source_version_id)
}

impl MemoryKnowledgeRepository {
    fn current_release_id(&self, scope: &TenantScope) -> (r: Option<u128>)
        requires
            self@.wf(),
        ensures
            r == current_of(self@, *scope),
    {
        match release_scope_position(&self.current_release, scope) {
            Some(i) => {
                proof {
                    let cr = self@.current_release;
                    let j = choose|j: int| 0 <= j < cr.len() && (#[trigger] cr[j]).scope == *scope;
                    assert(cr[j].scope == cr[i as int].scope);
                }
                Some(self.current_release[i].release_id)
            },
            None => None,
        }
    }

    fn is_released(&self, scope: &TenantScope, v: &SourceVersion) -> (r: bool)
        requires
            self@.wf(),
        ensures
            r == version_released(self@, *scope, *v),
    {
        if !(v.operator_id == scope.operator_id && v.tenant_id == scope.tenant_id && scope.project_id == Some(v.project_id)) {
            return false;
        }
        let active = match position(&self.sources, v.source_id) {
            Some(k) => self.sources[k].state == SourceState::Active,
            None => false,
        };
        if !active {
            return false;
        }
        position(&self.chunks, v.source_version_id).is_some()
    }




    fn record_position(&self, scope: &TenantScope, key: &str) -> (r: Option<usize>)
        requires
            self@.wf(),
        ensures
            match r {
                Some(i) => i < self@.import_items.len() && prior_record(self@, *scope, key@) == Some(self@.import_items[i as int]),
                None => prior_record(self@, *scope, key@) is None,
            },
    {
        let ghost s = self@.import_items;
        let mut i: usize = 0;
        while i < self.import_items.len()
            invariant
                i <= self.import_items.len(),
                s == self@.import_items,
                self@.wf(),
                forall|k: int| 0 <= k < i ==> !((#[trigger] s[k]).scope == *scope && s[k].key@ == key@),
            decreases self.import_items.len() - i,
        {
            let rec = &self.import_items[i];
            if rec.scope == *scope && str_eq(rec.key.as_str(), key) {
                proof {
                    let j = choose|j: int| 0 <= j < s.len() && (#[trigger] s[j]).scope == *scope && s[j].key@ == key@;
                    assert(s[j].scope == s[i as int].scope);
                }
                return Some(i);
            }
            i += 1;
        }
        None
    }

    fn put_record(&mut self, rec: ImportRecord)
        requires
            old(self)@.wf(),
            rec.acceptance@.client_item_id == rec.item.client_item_id@,
        ensures
            final(self)@.wf(),
            final(self)@ == with_record(old(self)@, rec),
    {
        let ghost s0 = self@;
        let ghost rv = rec;
        match self.record_position(&rec.scope, rec.key.as_str()) {
            Some(i) => {
                proof {
                    let s = s0.import_items;
                    let j = choose|j: int| 0 <= j < s.len() && (#[trigger] s[j]).scope == rv.scope && s[j].key@ == rv.key@;
                    assert(s[j].scope == s[i as int].scope);
                }
                self.import_items.set(i, rec);
            },
            None => {
                self.import_items.push(rec);
            },
        }
        proof {
            assert(self@.import_items =~= with_record(s0, rv).import_items);
            let t = self@.import_items;
            let s = s0.import_items;
            assert forall|a: int, b: int|
                0 <= a < t.len() && 0 <= b < t.len() && (#[trigger] t[a]).scope == (#[trigger] t[b]).scope && t[a].key@ == t[b].key@
                    implies a == b by {
                if a < s.len() && b < s.len() && t[a] == s[a] && t[b] == s[b] {
                } else if a < s.len() && t[a] == s[a] {
                    assert(t[b] == rv);
                } else if b < s.len() && t[b] == s[b] {
                    assert(t[a] == rv);
                }
            }
        }
    }

    /// One item of a batch.
    #[verifier::rlimit(40)]
    fn import_one(&mut self, scope: &TenantScope, item: ImportItem, Ghost(sequences): Ghost<int>, Ghost(versions): Ghost<int>) -> (a:
        ImportAcceptance)
        requires
            old(self)@.wf(),
            old(self)@.bounded(sequences, versions),
            1 <= sequences <= 0x0fff_ffff_ffff_ffff,
            versions <= 0x4000_0000,
            scope.project_id is Some,
        ensures
            final(self)@.wf(),
            final(self)@.bounded(sequences + 1, versions + 1),
            item_outcome(old(self)@, final(self)@, *scope, item, a@),
    {
        let ghost s0 = self@;
        let ghost iv = item;
        let key = trim(item.client_item_id.as_str());
        if key.unicode_len() == 0 || key.as_bytes().len() > 200 {
            return ImportAcceptance {
                client_item_id: item.client_item_id,
                status: ImportStatus::Failed,
                source: None,
                source_version: None,
                import_job: None,
                operation: None,
                release: None,
                error: Some(AppError::invalid_request("client_item_id is required and at most 200 characters")),
            };
        }
        match self.record_position(scope, key) {
            Some(i) => {
                let rec = &self.import_items[i];
                if !same_item(&rec.item, &item) {
                    return ImportAcceptance {
                        client_item_id: item.client_item_id,
                        status: ImportStatus::Failed,
                        source: None,
                        source_version: None,
                        import_job: None,
                        operation: None,
                        release: None,
                        error: Some(AppError::conflict("client_item_id was already used with different input")),
                    };
                }
                return rec.acceptance.copy();
            },
            None => {},
        }
        let key = key.to_owned();
        let acceptance = match item.kind {
            SourceKind::Text => match &item.text {
                None => ImportAcceptance {
                    client_item_id: item.client_item_id.clone(),
                    status: ImportStatus::Failed,
                    source: None,
                    source_version: None,
                    import_job: None,
                    operation: None,
                    release: None,
                    error: Some(AppError::invalid_request("text imports require the text field")),
                },
                Some(t) => {
                    let r = self.import_text(scope, &item, t.clone(), None, Ghost(sequences), Ghost(versions));
                    let ghost rv = acceptance_result(r);
                    let a = match r {
                        Ok(acc) => acc,
                        Err(e) => ImportAcceptance {
                            client_item_id: item.client_item_id.clone(),
                            status: ImportStatus::Failed,
                            source: None,
                            source_version: None,
                            import_job: None,
                            operation: None,
                            release: None,
                            error: Some(e),
                        },
                    };
                    assert(text_import_outcome(s0, self@, *scope, iv, iv.text->0@, None, rv));
                    a
                },
            },
            SourceKind::Url => {
                let is_http = match &item.url {
                    Some(u) => starts_with(u.as_str(), "https://") || starts_with(u.as_str(), "http://"),
                    None => false,
                };
                if is_http {
                    let a = failed_missing_adapter(scope, &item, "url_fetch");
                    match &a.source {
                        Some(src) => {
                            store(&mut self.sources, src.copy());
                        },
                        None => {},
                    }
                    match &a.import_job {
                        Some(job) => {
                            let stored = job.copy();
                            let ghost jv = stored;
                            store(&mut self.jobs, stored);
                            assert(jv.import_job_id == jv.import_job_id);
                        },
                        None => {},
                    }
                    a
                } else {
                    ImportAcceptance {
                        client_item_id: item.client_item_id.clone(),
                        status: ImportStatus::Failed,
                        source: None,
                        source_version: None,
                        import_job: None,
                        operation: None,
                        release: None,
                        error: Some(AppError::invalid_request("url imports require an http or https URL")),
                    }
                }
            },
            SourceKind::Object => ImportAcceptance {
                client_item_id: item.client_item_id.clone(),
                status: ImportStatus::Failed,
                source: None,
                source_version: None,
                import_job: None,
                operation: None,
                release: None,
                error: Some(AppError::new(ErrorCode::CapabilityMissing, "object import adapter is not implemented")),
            },
            SourceKind::KnowledgeCollection => ImportAcceptance {
                client_item_id: item.client_item_id.clone(),
                status: ImportStatus::Failed,
                source: None,
                source_version: None,
                import_job: None,
                operation: None,
                release: None,
                error: Some(
                    AppError::new(ErrorCode::CapabilityMissing, "knowledge collection materialization is not implemented"),
                ),
            },
            _ => ImportAcceptance {
                client_item_id: item.client_item_id.clone(),
                status: ImportStatus::Failed,
                source: None,
                source_version: None,
                import_job: None,
                operation: None,
                release: None,
                error: Some(
                    AppError::invalid_request("file imports require an upload session; manual imports require text"),
                ),
            },
        };
        let ghost mid = self@;
        proof {
            reveal_strlit("url_fetch");
            reveal_strlit("https://");
            reveal_strlit("http://");
            assert(kind_outcome(s0, mid, *scope, iv, acceptance@));
        }
        let rec = ImportRecord { scope: *scope, key, item, acceptance: acceptance.copy() };
        let ghost recv = rec;
        self.put_record(rec);
        proof {
            assert(with_record(mid, recv) == self@);
        }
        acceptance
    }

    /// Imports a batch of 1 to 100 items, one by one, each with its own
    /// acceptance.
    pub fn import_batch(&mut self, scope: &TenantScope, items: Vec<ImportItem>) -> (r: Result<ImportBatchAcceptance, AppError>)
        requires
            old(self)@.wf(),
            old(self)@.has_room(),
        ensures
            final(self)@.wf(),
            records_kept(old(self)@, final(self)@),
            match scope.project_id {
                None => result_view(r) == Err::<ImportBatchAcceptance, ErrorV>(project_required()) && final(self)@ == old(self)@,
                Some(_) => if items@.len() == 0 || items@.len() > 100 {
                    result_view(r) == Err::<ImportBatchAcceptance, ErrorV>(invalid("imports must contain between 1 and 100 items"@))
                        && final(self)@ == old(self)@
                } else {
                    r matches Ok(batch) && batch_outcome(old(self)@, final(self)@, *scope, items@, acceptance_views(batch.items@))
                        && batch.items@.len() == items@.len() && forall|k: int|
                        0 <= k < items@.len() ==> (#[trigger] batch.items@[k]).client_item_id@ == items@[k].client_item_id@
                },
            },
    {
        require_project(scope)?;
        if items.len() == 0 || items.len() > 100 {
            return Err(AppError::invalid_request("imports must contain between 1 and 100 items"));
        }
        let ghost all = items@;
        let ghost mut states: Seq<KnowledgeStoreV> = seq![self@];
        let mut output: Vec<ImportAcceptance> = Vec::new();
        let mut items = items;
        let mut k: usize = 0;
        assert(all.skip(0) =~= all);
        while items.len() > 0
            invariant
                k + items@.len() == all.len(),
                all.len() <= 100,
                items@ == all.skip(k as int),
                self@.wf(),
                self@.bounded(0x0800_0000_0000_0000 + k, 0x2000_0000 + k),
                scope.project_id is Some,
                states.len() == k + 1,
                states.last() == self@,
                states[0] == old(self)@,
                batch_walk(states, *scope, all.take(k as int), acceptance_views(output@)),
            decreases items@.len(),
        {
            let ghost before_items = items@;
            let item = items.remove(0);
            proof {
                assert(item == before_items[0]);
                assert(item == all[k as int]);
                assert(items@ =~= all.skip(k + 1));
            }
            let ghost prev_out = output@;
            let a = self.import_one(
                scope,
                item,
                Ghost(0x0800_0000_0000_0000 + k as int),
                Ghost(0x2000_0000 + k as int),
            );
            output.push(a);
            proof {
                let new_states = states.push(self@);
                assert(all.take(k + 1) =~= all.take(k as int).push(all[k as int]));
                assert(acceptance_views(output@) =~= acceptance_views(prev_out).push(output@[k as int]@));
                assert forall|m: int| 0 <= m < k + 1 implies item_outcome(
                    new_states[m],
                    new_states[m + 1],
                    *scope,
                    #[trigger] all.take(k + 1)[m],
                    acceptance_views(output@)[m],
                ) by {
                    if m < k {
                        assert(all.take(k + 1)[m] == all.take(k as int)[m]);
                    }
                }
                states = new_states;
            }
            k += 1;
        }
        proof {
            assert(all.take(all.len() as int) =~= all);
            assert(batch_walk(states, *scope, all, acceptance_views(output@)));
            assert(batch_outcome(old(self)@, self@, *scope, all, acceptance_views(output@)));
            lemma_batch_in_place(old(self)@, self@, *scope, all, acceptance_views(output@));
            lemma_batch_keeps_records(old(self)@, self@, *scope, all, acceptance_views(output@));
            assert forall|k: int| 0 <= k < all.len() implies (#[trigger] output@[k]).client_item_id@ == all[k].client_item_id@ by {
                assert(acceptance_views(output@)[k] == output@[k]@);
            }
        }
        Ok(ImportBatchAcceptance { items: output })
    }

    /// Imports one text: source, first version, chunks, job, operation and a
    /// new release, or the text rule it breaks with nothing written.
    #[verifier::rlimit(60)]
    fn import_text(
        &mut self,
        scope: &TenantScope,
        item: &ImportItem,
        text: String,
        object: Option<StoredObject>,
        Ghost(sequences): Ghost<int>,
        Ghost(versions): Ghost<int>,
    ) -> (r: Result<ImportAcceptance, AppError>)
        requires
            old(self)@.wf(),
            old(self)@.bounded(sequences as int, versions as int),
            1 <= sequences <= 0x0fff_ffff_ffff_ffff,
            versions <= 0x4000_0000,
            scope.project_id is Some,
        ensures
            final(self)@.wf(),
            final(self)@.bounded(sequences + 1, versions + 1),
            text_import_outcome(old(self)@, final(self)@, *scope, *item, text@, object, acceptance_result(r)),
    {
        let ghost s0 = self@;
        let ghost obj = object;
        if text.as_str().as_bytes().len() > MAX_INLINE_TEXT_BYTES {
            return Err(AppError::invalid_request("text exceeds inline limit; use an upload session"));
        }
        if trim(text.as_str()).unicode_len() == 0 {
            return Err(AppError::invalid_request("text must not be empty"));
        }
        proof {
            lemma_utf8_len(text@);
        }
        let project_id = scope.project_id.unwrap();
        let hash = sha256_hex_str(text.as_str());
        let now = utc_now_micros();
        let source_id = new_uuid();
        let version_id = new_uuid();
        let source = Source {
            source_id,
            operator_id: scope.operator_id,
            tenant_id: scope.tenant_id,
            project_id,
            revision: 1,
            kind: item.kind,
            name: item.name.clone(),
            purpose: item.purpose,
            state: SourceState::Active,
            locator: SourceLocator::InlineText,
            current_version_id: Some(version_id),
            sync_enabled: false,
            next_sync_at: None,
            last_sync_at: None,
        };
        proof {
            reveal_strlit("deterministic-text-v1");
            reveal_strlit("none-v1");
            reveal_strlit("knowledge.import");
            reveal_strlit("chunks:");
        }
        let version = SourceVersion {
            source_version_id: version_id,
            operator_id: scope.operator_id,
            tenant_id: scope.tenant_id,
            project_id,
            source_id,
            version: 1,
            object_id: match &object {
                Some(o) => Some(o.object_id),
                None => None,
            },
            object_version: match &object {
                Some(o) => Some(o.object_version),
                None => None,
            },
            content_sha256: hash.clone(),
            captured_at: now,
            original_url: None,
            parent_version_id: None,
            parser_version: String::from_str("deterministic-text-v1"),
            extraction_version: String::from_str("none-v1"),
            created_at: now,
        };
        let mut operation = Operation::queued(
            String::from_str("knowledge.import"),
            TenantScope::new(source.operator_id, source.tenant_id, Some(source.project_id)),
        );
        operation.status = OperationStatus::Succeeded;
        let chunks = deterministic_chunks(scope, version_id, text.as_str());
        let n = chunks.len();
        let mut refs: Vec<String> = Vec::new();
        refs.push(String::from_str("chunks:").concat(crate::rules::usize_to_string(n).as_str()));
        let job = ImportJob {
            import_job_id: new_uuid(),
            operator_id: scope.operator_id,
            tenant_id: scope.tenant_id,
            project_id,
            operation_id: operation.id,
            source_id,
            source_version_id: Some(version_id),
            stage: ImportStage::Release,
            status: ImportStatus::Succeeded,
            attempt: 1,
            lease_until: None,
            input_hash: hash,
            stage_output_refs: refs,
            completed_units: n as i32,
            failed_units: 0,
            errors: Vec::new(),
            resumed_from: None,
        };
        assert(job@.errors =~= Seq::<(Seq<char>, Seq<char>)>::empty());
        let ghost jv = job@;
        let stored_job = job.copy();
        let ghost stored_job_v = stored_job;
        let vc = VersionChunks { source_version_id: version_id, chunks };
        let ghost vcv = vc;
        store(&mut self.sources, source.copy());
        store(&mut self.versions, version.copy());
        store(&mut self.chunks, vc);
        store(&mut self.jobs, stored_job);
        match object {
            Some(o) => {
                store(&mut self.stored_objects, o);
            },
            None => {},
        }
        let ghost mid = self@;
        proof {
            assert(mid.versions.len() <= s0.versions.len() + 1);
            assert forall|i: int| 0 <= i < mid.chunks.len() implies (#[trigger] mid.chunks[i]).chunks@.len() < 0x8000_0000 by {
                match key_at(s0.chunks, keys::<VersionChunks>(), version_id) {
                    Some(k) => {
                        if i != k {
                            assert(mid.chunks[i] == s0.chunks[i]);
                        }
                    },
                    None => {
                        if i < s0.chunks.len() {
                            assert(mid.chunks[i] == s0.chunks[i]);
                        }
                    },
                }
            }
            assert(mid.release_room());
            assert(mid.bounded(sequences, versions + 1));
        }
        let release = match self.make_release(scope) {
            Ok(r) => r,
            Err(e) => {
                assert(false);
                return Err(e);
            },
        };
        operation.result = Some(
            OperationResult::KnowledgeImport {
                source_id,
                source_version_id: version_id,
                knowledge_release_id: release.knowledge_release_id,
            },
        );
        let acceptance = ImportAcceptance {
            client_item_id: item.client_item_id.clone(),
            status: ImportStatus::Succeeded,
            source: Some(source),
            source_version: Some(version),
            import_job: Some(job),
            operation: Some(operation),
            release: Some(release),
            error: None,
        };
        proof {
            let a = acceptance@;
            let new = self@;
            assert(vcv.source_version_id == version_id);
            assert(stored_job_v@ == jv);
            assert(stored_job_v.import_job_id == jv.import_job_id);
            assert(jv.stage_output_refs =~= seq!["chunks:"@ + crate::rules::decimal_text(vcv.chunks@.len())]);
            assert(new.chunks == mid.chunks);
            assert(new.jobs == mid.jobs);
            assert(new.chunks == upsert(s0.chunks, keys::<VersionChunks>(), vcv));
            assert(new.jobs == upsert(s0.jobs, keys::<ImportJob>(), stored_job_v));
            assert(text_rule(text@) is Ok);
            lemma_release_bound(mid, new, *scope, release@, sequences);
        }
        Ok(acceptance)
    }

    /// Builds a new immutable release of `scope` from its released versions
    /// and makes it the current one.
    fn make_release(&mut self, scope: &TenantScope) -> (r: Result<KnowledgeRelease, AppError>)
        requires
            old(self)@.wf(),
            old(self)@.release_room(),
        ensures
            final(self)@.wf(),
            match scope.project_id {
                None => result_view(r) == Err::<KnowledgeRelease, ErrorV>(project_required()) && final(self)@ == old(self)@,
                Some(_) => r matches Ok(rel) && release_fits(old(self)@, *scope, rel@) && exists|stored: KnowledgeRelease|
                    #![trigger stored.knowledge_release_id]
                    stored@ == rel@ && final(self)@ == with_release(old(self)@, *scope, stored),
            },
    {
        let project_id = require_project(scope)?;
        let ghost s0 = self@;
        let previous = self.current_release_id(scope);
        let sequence: i64 = match previous {
            Some(p) => match position(&self.releases, p) {
                Some(k) => {
                    assert(s0.releases[k as int].sequence < 0x1000_0000_0000_0000);
                    self.releases[k].sequence + 1
                },
                None => 1,
            },
            None => 1,
        };
        let ids = self.released_versions(scope);
        let mut chunk_count: u64 = 0;
        let mut k: usize = 0;
        while k < ids.len()
            invariant
                k <= ids.len(),
                s0 == self@,
                s0.wf(),
                s0.release_room(),
                ids@.len() <= s0.versions.len(),
                chunk_count == chunk_total(s0, ids@.take(k as int)),
                chunk_count <= k * 0x8000_0000,
            decreases ids.len() - k,
        {
            assert(ids@.take(k + 1).drop_last() =~= ids@.take(k as int));
            let n: u64 = match position(&self.chunks, ids[k]) {
                Some(m) => {
                    assert(s0.chunks[m as int].chunks@.len() < 0x8000_0000);
                    self.chunks[m].chunks.len() as u64
                },
                None => 0,
            };
            assert(k * 0x8000_0000 + 0x8000_0000 <= 0x8000_0000 * 0x8000_0000) by (nonlinear_arith)
                requires k < 0x8000_0000;
            chunk_count = chunk_count + n;
            k += 1;
        }
        assert(ids@.take(ids.len() as int) =~= ids@);
        let mut failed: u64 = 0;
        let mut j: usize = 0;
        while j < self.jobs.len()
            invariant
                j <= self.jobs.len(),
                s0 == self@,
                failed == failed_jobs(s0.jobs.take(j as int), *scope),
                failed <= j,
            decreases self.jobs.len() - j,
        {
            assert(s0.jobs.take(j + 1).drop_last() =~= s0.jobs.take(j as int));
            let job = &self.jobs[j];
            if job.operator_id == scope.operator_id && job.tenant_id == scope.tenant_id && scope.project_id == Some(
                job.project_id,
            ) && (job.status == ImportStatus::Failed || job.status == ImportStatus::Partial) {
                failed = failed + 1;
            }
            j += 1;
        }
        assert(s0.jobs.take(s0.jobs.len() as int) =~= s0.jobs);
        let mut joined = String::new();
        let mut m: usize = 0;
        while m < ids.len()
            invariant
                m <= ids.len(),
                joined@ == joined_ids(ids@.take(m as int)),
            decreases ids.len() - m,
        {
            let id_text = uuid_to_string(ids[m]);
            let ghost prefix = ids@.take(m as int);
            assert(ids@.take(m + 1).drop_last() =~= prefix);
            if m > 0 {
                joined = joined.concat("\n");
            }
            joined = joined.concat(id_text.as_str());
            proof {
                reveal_strlit("\n");
                if m == 0 {
                    assert(prefix =~= Seq::<u128>::empty());
                    assert(joined@ =~= uuid_text(ids@[0]));
                }
                assert(joined@ =~= joined_ids(ids@.take(m + 1)));
            }
            m += 1;
        }
        let content_hash = sha256_hex_str(joined.as_str());
        proof {
            reveal_strlit("deterministic-text-index-v1");
            reveal_strlit("deterministic-text-v1");
            reveal_strlit("none-v1");
            reveal_strlit("substring-v1");
        }
        let count = ids.len() as u64;
        let release = KnowledgeRelease {
            knowledge_release_id: new_uuid(),
            operator_id: scope.operator_id,
            tenant_id: scope.tenant_id,
            project_id,
            sequence,
            previous_release_id: previous,
            source_version_refs: ids,
            fact_revision_refs: Vec::new(),
            index_build_id: String::from_str("deterministic-text-index-v1"),
            pipeline_versions: PipelineVersions {
                parser: String::from_str("deterministic-text-v1"),
                extractor: String::from_str("none-v1"),
                index: String::from_str("substring-v1"),
            },
            content_hash,
            coverage: KnowledgeCoverage {
                source_version_count: count,
                chunk_count,
                failed_source_count: failed,
                blocked_reasons: Vec::new(),
            },
            created_at: utc_now_micros(),
        };
        assert(release@.fact_revision_refs =~= Seq::<(u128, i64)>::empty());
        assert(release@.blocked_reasons =~= Seq::<Seq<char>>::empty());
        let id = release.knowledge_release_id;
        let current = CurrentRelease { scope: *scope, release_id: id };
        match release_scope_position(&self.current_release, scope) {
            Some(i) => {
                proof {
                    let cr = s0.current_release;
                    let c = choose|c: int| 0 <= c < cr.len() && (#[trigger] cr[c]).scope == *scope;
                    assert(cr[c].scope == cr[i as int].scope);
                }
                self.current_release.set(i, current);
            },
            None => {
                self.current_release.push(current);
            },
        }
        let stored = release.copy();
        let ghost sv = stored;
        store(&mut self.releases, stored);
        proof {
            assert(self@.current_release =~= with_release(s0, *scope, sv).current_release);
            assert(self@ == with_release(s0, *scope, sv));
            let rv = release@;
            assert(rv.sequence == next_sequence(s0, *scope));
            assert(rv.previous_release_id == current_of(s0, *scope));
            assert(rv.content_hash == sha256_hex_text(utf8(joined_ids(rv.source_version_refs))));
            assert(rv.chunk_count == chunk_total(s0, rv.source_version_refs));
            assert(rv.failed_source_count == failed_jobs(s0.jobs, *scope));
            assert(release_fits(s0, *scope, rv));
            let cr = self@.current_release;
            assert forall|a: int, b: int|
                0 <= a < cr.len() && 0 <= b < cr.len() && (#[trigger] cr[a]).scope == (#[trigger] cr[b]).scope implies a == b by {
                let old_cr = s0.current_release;
                if a < old_cr.len() && b < old_cr.len() && old_cr[a].scope == old_cr[b].scope {
                } else if a < old_cr.len() && b < old_cr.len() {
                } else if a < old_cr.len() {
                    assert(old_cr[a].scope != *scope || cr[a] == current);
                } else if b < old_cr.len() {
                    assert(old_cr[b].scope != *scope || cr[b] == current);
                }
            }
        }
        Ok(release)
    }

    /// The released versions of `scope`, by id.
    fn released_versions(&self, scope: &TenantScope) -> (ids: Vec<u128>)
        requires
            self@.wf(),
        ensures
            ids@.len() <= self@.versions.len(),
            forall|i: int, j: int| 0 <= i < j < ids@.len() ==> #[trigger] ids@[i] < #[trigger] ids@[j],
            forall|id: u128| ids@.contains(id) <==> exists|v: SourceVersion|
                #[trigger] self@.versions.contains(v) && v.source_version_id == id && version_released(self@, *scope, v),
    {
        let ghost s = self@.versions;
        let ghost p = released_in(self@, *scope);
        let mut ks: Vec<(i128, u128, usize)> = Vec::new();
        let mut i: usize = 0;
        while i < self.versions.len()
            invariant
                i <= self.versions.len(),
                s == self.versions@,
                self@.wf(),
                p == released_in(self@, *scope),
                keys_of_places(s.take(i as int), p, version_key(), ks@),
                ks@.len() <= i,
            decreases self.versions.len() - i,
        {
            let v = &self.versions[i];
            let keep = self.is_released(scope, v);
            let ghost before = ks@;
            if keep {
                ks.push((0i128, v.source_version_id, i));
            }
            proof {
                lemma_keys_of_places_step(s, p, version_key(), before, i as int, keep, ks@);
            }
            i += 1;
        }
        assert(s.take(s.len() as int) =~= s);
        let sorted = sort_keys(ks);
        proof {
            lemma_keys_of_places_sorted(s, p, version_key(), ks@, sorted@);
        }
        let mut ids: Vec<u128> = Vec::new();
        let mut k: usize = 0;
        while k < sorted.len()
            invariant
                k <= sorted.len(),
                ids@.len() == k,
                forall|m: int| 0 <= m < k ==> #[trigger] ids@[m] == sorted@[m].1,
            decreases sorted.len() - k,
        {
            ids.push(sorted[k].1);
            k += 1;
        }
        proof {
            let ss = sorted@;
            assert forall|a: int, b: int| 0 <= a < b < ids@.len() implies #[trigger] ids@[a] < #[trigger] ids@[b] by {
                assert(!key_before(ss[b], ss[a]));
                assert(ss[a].2 < s.len() && ss[b].2 < s.len());
                assert(version_key()(s[ss[a].2 as int]) == (ss[a].0, ss[a].1));
                assert(version_key()(s[ss[b].2 as int]) == (ss[b].0, ss[b].1));
                if ids@[a] == ids@[b] {
                    assert(keys::<SourceVersion>()(s[ss[a].2 as int]) == keys::<SourceVersion>()(s[ss[b].2 as int]));
                    assert(ss[a].2 == ss[b].2);
                }
            }
            assert forall|id: u128| ids@.contains(id) <==> exists|v: SourceVersion|
                #[trigger] s.contains(v) && v.source_version_id == id && version_released(self@, *scope, v) by {
                if ids@.contains(id) {
                    let m = choose|m: int| 0 <= m < ids@.len() && ids@[m] == id;
                    let v = s[ss[m].2 as int];
                    assert(version_key()(v) == (ss[m].0, ss[m].1));
                    assert(p(v));
                    assert(s.contains(v));
                }
                if exists|v: SourceVersion| #[trigger] s.contains(v) && v.source_version_id == id && version_released(self@, *scope, v) {
                    let v = choose|v: SourceVersion| #[trigger] s.contains(v) && v.source_version_id == id && version_released(self@, *scope, v);
                    let q = choose|q: int| 0 <= q < s.len() && s[q] == v;
                    assert(p(s[q]));
                    assert(q <= usize::MAX);
                    assert(ss.contains((0i128, id, q as usize)));
                    let m = choose|m: int| 0 <= m < ss.len() && ss[m] == (0i128, id, q as usize);
                    assert(ids@[m] == id);
                }
            }
        }
        ids
    }
}

impl MemoryKnowledgeRepository {
    pub fn new() -> (repo: Self)
        ensures
            repo@.wf(),
            repo@.sources.len() == 0,
            repo@.releases.len() == 0,
    {
        MemoryKnowledgeRepository {
            upload_sessions: Vec::new(),
            upload_bytes: Vec::new(),
            stored_objects: Vec::new(),
            object_bytes: Vec::new(),
            sources: Vec::new(),
            versions: Vec::new(),
            jobs: Vec::new(),
            chunks: Vec::new(),
            releases: Vec::new(),
            current_release: Vec::new(),
            import_items: Vec::new(),
            completions: Vec::new(),
        }
    }

    /// Whether revisions, sequence numbers and counts are still far from
    /// their limits, so that an import or upload can proceed.
    pub fn has_room(&self) -> (b: bool)
        ensures
            b == self@.has_room(),
    {
        let mut i: usize = 0;
        while i < self.upload_sessions.len()
            invariant
                i <= self.upload_sessions@.len(),
                forall|k: int| 0 <= k < i ==> #[trigger] self.upload_sessions@[k].revision < 0x1000_0000_0000_0000,
            decreases self.upload_sessions.len() - i,
        {
            if self.upload_sessions[i].revision >= 0x1000_0000_0000_0000 {
                assert(self@.upload_sessions[i as int].revision >= 0x1000_0000_0000_0000);
                return false;
            }
            i += 1;
        }
        let mut i: usize = 0;
        while i < self.releases.len()
            invariant
                i <= self.releases@.len(),
                forall|k: int| 0 <= k < i ==> #[trigger] self.releases@[k].sequence < 0x0800_0000_0000_0000,
            decreases self.releases.len() - i,
        {
            if self.releases[i].sequence >= 0x0800_0000_0000_0000 {
                assert(self@.releases[i as int].sequence >= 0x0800_0000_0000_0000);
                return false;
            }
            i += 1;
        }
        if self.versions.len() >= 0x2000_0000 {
            return false;
        }
        let mut i: usize = 0;
        while i < self.chunks.len()
            invariant
                i <= self.chunks@.len(),
                forall|k: int| 0 <= k < i ==> (#[trigger] self.chunks@[k]).chunks@.len() < 0x8000_0000,
            decreases self.chunks.len() - i,
        {
            if self.chunks[i].chunks.len() >= 0x8000_0000 {
                assert(self@.chunks[i as int].chunks@.len() >= 0x8000_0000);
                return false;
            }
            i += 1;
        }
        true
    }

    /// What this store can do, for a project scope.
    pub fn capabilities(&self, scope: &TenantScope) -> (r: Result<KnowledgeCapability, AppError>)
        ensures
            match scope.project_id {
                None => result_view(r) == Err::<KnowledgeCapability, ErrorV>(project_required()),
                Some(_) => r matches Ok(c) && crate::knowledge::is_memory_capability(c),
            },
    {
        require_project(scope)?;
        Ok(KnowledgeCapability::memory())
    }


    /// Stores the bytes of an open upload session.
    pub fn put_upload_content(&mut self, scope: &TenantScope, id: u128, content: Vec<u8>) -> (r: Result<
        UploadSession,
        AppError,
    >)
        requires
            old(self)@.wf(),
            old(self)@.has_room(),
        ensures
            final(self)@.wf(),
            final(self)@.import_items == old(self)@.import_items,
            exists|now: int| put_content_outcome(old(self)@, final(self)@, *scope, id, content, now, result_view(r)),
    {
        let ghost c = content;
        if scope.project_id.is_none() {
            let r = Err(AppError::invalid_request("project_id is required for knowledge resources"));
            assert(put_content_outcome(old(self)@, self@, *scope, id, c, 0, result_view(r)));
            return r;
        }
        let now = utc_now_micros();
        let i = match position(&self.upload_sessions, id) {
            Some(i) => i,
            None => {
                let r = Err(AppError::not_found("upload session not found"));
                assert(put_content_outcome(old(self)@, self@, *scope, id, c, now as int, result_view(r)));
                return r;
            },
        };
        let session = self.upload_sessions[i].copy();
        if !(session.operator_id == scope.operator_id && session.tenant_id == scope.tenant_id
            && scope.project_id == Some(session.project_id)) {
            let r = Err(AppError::not_found("upload session not found"));
            assert(put_content_outcome(old(self)@, self@, *scope, id, c, now as int, result_view(r)));
            return r;
        }
        if session.expires_at <= now {
            store(&mut self.upload_sessions, UploadSession { state: UploadSessionState::Expired, ..session });
            let r = Err(AppError::new(ErrorCode::Conflict, "upload session has expired"));
            assert(put_content_outcome(old(self)@, self@, *scope, id, c, now as int, result_view(r)));
            return r;
        }
        if !(session.state == UploadSessionState::Created || session.state == UploadSessionState::Uploading
            || session.state == UploadSessionState::Uploaded) {
            let r = Err(AppError::new(ErrorCode::Conflict, "upload session cannot accept content"));
            assert(put_content_outcome(old(self)@, self@, *scope, id, c, now as int, result_view(r)));
            return r;
        }
        if content.len() as u64 > session.expected_size || content.len() as u64 > MAX_UPLOAD_BYTES {
            let r = Err(AppError::invalid_request("uploaded content exceeds declared size"));
            assert(put_content_outcome(old(self)@, self@, *scope, id, c, now as int, result_view(r)));
            return r;
        }
        proof {
            assert(old(self)@.upload_sessions[i as int].revision < 0x1000_0000_0000_0000);
        }
        let updated = UploadSession { state: UploadSessionState::Uploaded, revision: session.revision + 1, ..session };
        store(&mut self.upload_sessions, updated.copy());
        store(&mut self.upload_bytes, Blob { id, bytes: content });
        let r = Ok(updated);
        assert(put_content_outcome(old(self)@, self@, *scope, id, c, now as int, result_view(r)));
        r
    }

    fn completion_position(&self, id: u128, kh: &str) -> (r: Option<usize>)
        requires
            self@.wf(),
        ensures
            match r {
                Some(i) => i < self@.completions.len() && completion_of(self@, id, kh@) == Some(self@.completions[i as int]),
                None => completion_of(self@, id, kh@) is None,
            },
    {
        let ghost s = self@.completions;
        let mut i: usize = 0;
        while i < self.completions.len()
            invariant
                i <= self.completions.len(),
                s == self@.completions,
                self@.wf(),
                forall|k: int| 0 <= k < i ==> !((#[trigger] s[k]).upload_session_id == id && s[k].key_hash@ == kh@),
            decreases self.completions.len() - i,
        {
            let c = &self.completions[i];
            if c.upload_session_id == id && str_eq(c.key_hash.as_str(), kh) {
                proof {
                    let j = choose|j: int| 0 <= j < s.len() && (#[trigger] s[j]).upload_session_id == id && s[j].key_hash@ == kh@;
                    assert(s[j].upload_session_id == s[i as int].upload_session_id);
                }
                return Some(i);
            }
            i += 1;
        }
        None
    }

    fn put_completion(&mut self, c: Completion)
        requires
            old(self)@.wf(),
        ensures
            final(self)@.wf(),
            final(self)@ == with_completion(old(self)@, c),
    {
        let ghost s0 = self@;
        let ghost cv = c;
        match self.completion_position(c.upload_session_id, c.key_hash.as_str()) {
            Some(i) => {
                proof {
                    let s = s0.completions;
                    let j = choose|j: int|
                        0 <= j < s.len() && (#[trigger] s[j]).upload_session_id == cv.upload_session_id && s[j].key_hash@
                            == cv.key_hash@;
                    assert(s[j].upload_session_id == s[i as int].upload_session_id);
                }
                self.completions.set(i, c);
            },
            None => {
                self.completions.push(c);
            },
        }
        proof {
            assert(self@.completions =~= with_completion(s0, cv).completions);
            let t = self@.completions;
            let s = s0.completions;
            assert forall|a: int, b: int|
                0 <= a < t.len() && 0 <= b < t.len() && (#[trigger] t[a]).upload_session_id == (#[trigger] t[b]).upload_session_id
                    && t[a].key_hash@ == t[b].key_hash@ implies a == b by {
                if a < s.len() && b < s.len() && t[a] == s[a] && t[b] == s[b] {
                } else if a < s.len() && t[a] == s[a] {
                    assert(t[b] == cv);
                } else if b < s.len() && t[b] == s[b] {
                    assert(t[a] == cv);
                }
            }
        }
    }

    /// Turns verified upload bytes into a stored object and its import,
    /// commits the session and remembers the completion.
    #[verifier::rlimit(60)]
    fn commit_upload(
        &mut self,
        scope: &TenantScope,
        session: UploadSession,
        content: Vec<u8>,
        kh: String,
        now: i64,
    ) -> (r: Result<ImportAcceptance, AppError>)
        requires
            old(self)@.wf(),
            old(self)@.has_room(),
            scope.project_id is Some,
            session_in_scope(*scope, session),
            lookup(old(self)@.upload_sessions, keys::<UploadSession>(), session.upload_session_id) == Some(session),
            content@.len() == session.expected_size,
            sha256_hex_text(content@) == session.expected_sha256@,
        ensures
            final(self)@.wf(),
            upload_commit(old(self)@, final(self)@, *scope, session, content@, kh@, acceptance_result(r)),
    {
        let ghost s0 = self@;
        let ghost cb = content@;
        let id = session.upload_session_id;
        proof {
            reveal_strlit("memory");
            reveal_strlit("memory-object/");
            reveal_strlit("upload:");
            reveal_strlit("document_parser");
            let k = key_at(s0.upload_sessions, keys::<UploadSession>(), id)->0;
            assert(s0.upload_sessions[k].revision < 0x1000_0000_0000_0000);
        }
        let object_id = new_uuid();
        let key_id = new_uuid();
        let key_text = uuid_to_string(key_id);
        let opaque_key = String::from_str("memory-object/").concat(key_text.as_str());
        proof {
            assert(opaque_key@.skip(14) =~= uuid_text(key_id));
        }
        let object = StoredObject {
            object_id,
            operator_id: session.operator_id,
            tenant_id: session.tenant_id,
            project_id: session.project_id,
            object_version: 1,
            backend: String::from_str("memory"),
            opaque_key,
            actual_size: content.len() as u64,
            detected_media_type: session.declared_media_type.clone(),
            sha256: sha256_hex(content.as_slice()),
            state: StoredObjectState::Committed,
            created_at: now,
        };
        let ghost ov = object;
        assert(object_fits(ov, session, content@));
        let kept = content.clone();
        assert(kept@ =~= content@);
        let blob = Blob { id: object_id, bytes: kept };
        let ghost bv = blob;
        store(&mut self.object_bytes, blob);
        let ghost s1 = self@;
        assert(s1 == (KnowledgeStoreV { object_bytes: upsert(s0.object_bytes, keys::<Blob>(), bv), ..s0 }));
        let id_text = uuid_to_string(id);
        let item = ImportItem {
            client_item_id: String::from_str("upload:").concat(id_text.as_str()),
            kind: SourceKind::File,
            name: session.filename.clone(),
            purpose: session.purpose,
            text: None,
            url: None,
            object_id: Some(object_id),
            knowledge_release_id: None,
        };
        let ghost iv = item;
        assert(upload_item_fits(iv, session, object_id));
        let acceptance = if is_text_media_type(session.declared_media_type.as_str()) {
            let text = match text_from_utf8(content) {
                Some(t) => t,
                None => {
                    let r = Err(AppError::invalid_request("text upload bytes must be valid UTF-8"));
                    assert(bv.id == object_id);
                    assert(forall|t: Seq<char>| utf8(t) != cb);
                    assert(object_fits(ov, session, cb));
                    assert(upload_item_fits(iv, session, ov.object_id));
                    assert(is_text_media(session.declared_media_type@));
                    assert(self@ == s1);
                    assert(bv.bytes@ == cb);
                    assert(acceptance_result(r) == Err::<ImportAcceptanceV, ErrorV>(invalid("text upload bytes must be valid UTF-8"@)));
                    assert(upload_commit(s0, self@, *scope, session, cb, kh@, acceptance_result(r)));
                    return r;
                },
            };
            let ghost tv = text@;
            let imported = self.import_text(
                scope,
                &item,
                text,
                Some(object.copy()),
                Ghost(0x0800_0000_0000_0000),
                Ghost(0x2000_0000),
            );
            let ghost s2 = self@;
            let ghost ri = acceptance_result(imported);
            assert(text_import_outcome(s1, s2, *scope, iv, tv, Some(ov), ri));
            match imported {
                Err(e) => {
                    let r = Err(e);
                    assert(bv.id == object_id);
                    assert(upload_commit(s0, self@, *scope, session, cb, kh@, acceptance_result(r)));
                    return r;
                },
                Ok(a) => a,
            }
        } else {
            let a = failed_missing_adapter(scope, &item, "document_parser");
            match &a.source {
                Some(src) => {
                    store(&mut self.sources, src.copy());
                },
                None => {},
            }
            match &a.import_job {
                Some(job) => {
                    let stored = job.copy();
                    let ghost jv = stored;
                    store(&mut self.jobs, stored);
                    assert(jv.import_job_id == jv.import_job_id);
                },
                None => {},
            }
            store(&mut self.stored_objects, object.copy());
            a
        };
        let ghost s2 = self@;
        let ghost acc = acceptance@;
        let source_id = match &acceptance.source {
            Some(src) => Some(src.source_id),
            None => None,
        };
        let release_id = match &acceptance.release {
            Some(rel) => Some(rel.knowledge_release_id),
            None => None,
        };
        let mut acceptance = acceptance;
        let operation = match &acceptance.operation {
            Some(op) => {
                let mut done = op.copy();
                done.result = Some(
                    OperationResult::UploadCompletion { upload_session_id: id, object_id, source_id, knowledge_release_id: release_id },
                );
                Some(done)
            },
            None => None,
        };
        acceptance.operation = operation;
        let operation_id = match &acceptance.operation {
            Some(op) => Some(op.id),
            None => None,
        };
        let ghost done = acceptance@;
        assert(completed_acceptance(acc, done, id, object_id));
        proof {
            assert(lookup(s2.upload_sessions, keys::<UploadSession>(), id) == Some(session));
        }
        let updated = UploadSession {
            state: UploadSessionState::Committed,
            revision: session.revision + 1,
            committed_object_id: Some(object_id),
            operation_id,
            ..session
        };
        let ghost uv = updated;
        store(&mut self.upload_sessions, updated);
        let ghost s3 = self@;
        assert(s3 == (KnowledgeStoreV { upload_sessions: upsert(s2.upload_sessions, keys::<UploadSession>(), uv), ..s2 }));
        let completion = Completion { upload_session_id: id, key_hash: kh, acceptance: acceptance.copy() };
        let ghost cv = completion;
        self.put_completion(completion);
        assert(cv.upload_session_id == id);
        assert(committed(s2, self@, session, cv.key_hash@, object_id, done));
        let r = Ok(acceptance);
        assert(bv.id == object_id);
        assert(upload_commit(s0, self@, *scope, session, cb, cv.key_hash@, acceptance_result(r)));
        r
    }

    /// Completes an upload session under an idempotency key: a key seen
    /// before answers what it answered then; otherwise the session's bytes
    /// are checked against its declared size and digest and imported.
    #[verifier::rlimit(40)]
    pub fn complete_upload(&mut self, scope: &TenantScope, id: u128, idempotency_key: &str) -> (r: Result<
        ImportAcceptance,
        AppError,
    >)
        requires
            old(self)@.wf(),
            old(self)@.has_room(),
        ensures
            final(self)@.wf(),
            final(self)@.import_items == old(self)@.import_items,
            exists|now: int| complete_outcome(old(self)@, final(self)@, *scope, id, idempotency_key@, now, acceptance_result(r)),
    {
        let ghost s0 = self@;
        let ghost key = idempotency_key@;
        if scope.project_id.is_none() {
            let r = Err(AppError::invalid_request("project_id is required for knowledge resources"));
            assert(complete_outcome(s0, self@, *scope, id, key, 0, acceptance_result(r)));
            return r;
        }
        let trimmed_key = trim(idempotency_key);
        if trimmed_key.unicode_len() == 0 {
            let r = Err(AppError::invalid_request("Idempotency-Key must not be empty"));
            assert(complete_outcome(s0, self@, *scope, id, key, 0, acceptance_result(r)));
            return r;
        }
        let kh = sha256_hex_str(trimmed_key);
        match self.completion_position(id, kh.as_str()) {
            Some(i) => {
                let r = Ok(self.completions[i].acceptance.copy());
                assert(complete_outcome(s0, self@, *scope, id, key, 0, acceptance_result(r)));
                return r;
            },
            None => {},
        }
        let now = utc_now_micros();
        let i = match position(&self.upload_sessions, id) {
            Some(i) => i,
            None => {
                let r = Err(AppError::not_found("upload session not found"));
                assert(complete_outcome(s0, self@, *scope, id, key, now as int, acceptance_result(r)));
                return r;
            },
        };
        let session = self.upload_sessions[i].copy();
        if !(session.operator_id == scope.operator_id && session.tenant_id == scope.tenant_id
            && scope.project_id == Some(session.project_id)) {
            let r = Err(AppError::not_found("upload session not found"));
            assert(complete_outcome(s0, self@, *scope, id, key, now as int, acceptance_result(r)));
            return r;
        }
        if session.expires_at <= now {
            store(&mut self.upload_sessions, UploadSession { state: UploadSessionState::Expired, ..session });
            let r = Err(AppError::new(ErrorCode::Conflict, "upload session has expired"));
            assert(complete_outcome(s0, self@, *scope, id, key, now as int, acceptance_result(r)));
            return r;
        }
        if session.state == UploadSessionState::Committed {
            let r = Err(AppError::new(ErrorCode::Conflict, "upload session was completed with a different idempotency key"));
            assert(complete_outcome(s0, self@, *scope, id, key, now as int, acceptance_result(r)));
            return r;
        }
        let j = match position(&self.upload_bytes, id) {
            Some(j) => j,
            None => {
                let r = Err(AppError::new(ErrorCode::Conflict, "upload content has not been received"));
                assert(complete_outcome(s0, self@, *scope, id, key, now as int, acceptance_result(r)));
                return r;
            },
        };
        let content = self.upload_bytes[j].bytes.clone();
        assert(content@ =~= s0.upload_bytes[j as int].bytes@);
        let actual_hash = sha256_hex(content.as_slice());
        if content.len() as u64 != session.expected_size || !str_eq(actual_hash.as_str(), session.expected_sha256.as_str()) {
            proof {
                assert(s0.upload_sessions[i as int].revision < 0x1000_0000_0000_0000);
            }
            store(
                &mut self.upload_sessions,
                UploadSession { state: UploadSessionState::Failed, revision: session.revision + 1, ..session },
            );
            let r = Err(AppError::invalid_request("uploaded content size or sha256 does not match upload session"));
            assert(complete_outcome(s0, self@, *scope, id, key, now as int, acceptance_result(r)));
            return r;
        }
        let r = self.commit_upload(scope, session, content, kh, now);
        assert(complete_outcome(s0, self@, *scope, id, key, now as int, acceptance_result(r)));
        r
    }

    /// Opens an upload session for one verified file, valid for an hour.
    pub fn create_upload_session(&mut self, scope: &TenantScope, command: UploadSessionCommand) -> (r: Result<
        UploadSession,
        AppError,
    >)
        requires
            old(self)@.wf(),
        ensures
            final(self)@.wf(),
            final(self)@.import_items == old(self)@.import_items,
            match scope.project_id {
                None => result_view(r) == Err::<UploadSession, ErrorV>(project_required()) && final(self)@ == old(self)@,
                Some(project_id) => match upload_rule(command) {
                    Err(e) => result_view(r) == Err::<UploadSession, ErrorV>(e) && final(self)@ == old(self)@,
                    Ok(()) => r matches Ok(s) && {
                        &&& s.operator_id == scope.operator_id
                        &&& s.tenant_id == scope.tenant_id
                        &&& s.project_id == project_id
                        &&& s.revision == 1
                        &&& s.filename@ == trimmed(command.filename@)
                        &&& s.declared_media_type@ == media_type_norm(command.declared_media_type@)
                        &&& s.expected_size == command.expected_size
                        &&& s.expected_sha256@ == ascii_lower(command.expected_sha256@)
                        &&& s.purpose == command.purpose
                        &&& s.state == UploadSessionState::Created
                        &&& s.staging_object_ref matches Some(r) && r@ == "memory-staging/"@ + uuid_text(s.upload_session_id)
                        &&& s.committed_object_id is None
                        &&& s.operation_id is None
                        &&& crate::clock::min_instant() + micros_per_hour() <= s.expires_at
                            <= crate::clock::max_instant() + micros_per_hour()
                        &&& final(self)@ == (KnowledgeStoreV {
                            upload_sessions: upsert(old(self)@.upload_sessions, keys::<UploadSession>(), s),
                            ..old(self)@
                        })
                    },
                },
            },
    {
        let project_id = require_project(scope)?;
        validate_upload(&command)?;
        let id = new_uuid();
        let now = utc_now_micros();
        let id_text = uuid_to_string(id);
        proof {
            reveal_strlit("memory-staging/");
        }
        let session = UploadSession {
            upload_session_id: id,
            operator_id: scope.operator_id,
            tenant_id: scope.tenant_id,
            project_id,
            revision: 1,
            filename: trim(command.filename.as_str()).to_owned(),
            declared_media_type: normalize_media_type(command.declared_media_type.as_str()),
            expected_size: command.expected_size,
            expected_sha256: to_ascii_lowercase(command.expected_sha256.as_str()),
            purpose: command.purpose,
            state: UploadSessionState::Created,
            expires_at: now + 3600000000,
            staging_object_ref: Some(String::from_str("memory-staging/").concat(id_text.as_str())),
            committed_object_id: None,
            operation_id: None,
        };
        store(&mut self.upload_sessions, session.copy());
        Ok(session)
    }
}

fn require_project(scope: &TenantScope) -> (r: Result<ProjectId, AppError>)
    ensures
        match scope.project_id {
            Some(p) => r == Ok::<ProjectId, AppError>(p),
            None => result_view(r) == Err::<ProjectId, ErrorV>(project_required()),
        },
{
    match scope.project_id {
        Some(p) => Ok(p),
        None => Err(AppError::invalid_request("project_id is required for knowledge resources")),
    }
}

fn validate_upload(command: &UploadSessionCommand) -> (r: Result<(), AppError>)
    ensures
        match upload_rule(*command) {
            Ok(()) => r is Ok,
            Err(e) => result_view(r) == Err::<(), ErrorV>(e),
        },
{
    if trim(command.filename.as_str()).unicode_len() == 0 || command.filename.as_str().as_bytes().len() > 255 {
        return Err(AppError::invalid_request("filename must be between 1 and 255 characters"));
    }
    if trim(command.declared_media_type.as_str()).unicode_len() == 0 || command.declared_media_type.as_str().as_bytes().len() > 255 {
        return Err(AppError::invalid_request("declared_media_type is required"));
    }
    if command.expected_size == 0 || command.expected_size > MAX_UPLOAD_BYTES {
        return Err(AppError::invalid_request("expected_size must be between 1 and 104857600"));
    }
    validate_sha256(command.expected_sha256.as_str())
}

} // verus!
