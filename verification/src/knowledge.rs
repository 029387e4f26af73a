//! Versioned, tenant-scoped knowledge-import contracts.  Only the first
//! usable slice is modelled: verified upload bytes and plain text or Markdown
//! become deterministic paragraph chunks and an immutable release.  Crawling,
//! office and PDF parsing, OCR, embeddings and model answers are reported as
//! missing capabilities, never imitated.

use vstd::prelude::*;
use vstd::string::StringExecFns;
use crate::digest::{sha256_hex_str, sha256_hex_text, utf8};
use crate::error::{AppError, ErrorCode, ErrorV, err};
use crate::ids::{new_uuid, OperatorId, ProjectId, TenantId, TenantScope};
use crate::rules::{invalid, strs};
use crate::text::{opt_text, ascii_lower, all_chars, all_hex, is_ascii_hex, split, split_pieces, to_ascii_lowercase, trim, trimmed, leading_ws};

verus! {

pub const MAX_UPLOAD_BYTES: u64 = 104857600;

/// Inline text stays well below the 1 MiB the idempotency layer buffers;
/// larger material goes through a verified upload.
pub const MAX_INLINE_TEXT_BYTES: usize = 262144;

pub const UPLOAD_SESSION_TTL_SECONDS: i64 = 3600;

#[derive(Debug, Clone, Copy, PartialEq, Eq, Structural)]
pub enum KnowledgePurpose {
    Public,
    Internal,
}

#[derive(Debug, Clone, Copy, PartialEq, Eq, Structural)]
pub enum UploadSessionState {
    Created,
    Uploading,
    Uploaded,
    Committed,
    Failed,
    Expired,
    Cancelled,
}

#[derive(Debug, Clone, Copy, PartialEq, Eq, Structural)]
pub enum StoredObjectState {
    Staged,
    Committed,
}

#[derive(Debug, Clone, Copy, PartialEq, Eq, Structural)]
pub enum SourceKind {
    File,
    Url,
    Text,
    Object,
    KnowledgeCollection,
    Manual,
}

#[derive(Debug, Clone, Copy, PartialEq, Eq, Structural)]
pub enum SourceState {
    Active,
    Removed,
}

#[derive(Debug, Clone, Copy, PartialEq, Eq, Structural)]
pub enum ImportStage {
    Acquire,
    Parse,
    Extract,
    Index,
    Release,
}

#[derive(Debug, Clone, Copy, PartialEq, Eq, Structural)]
pub enum ImportStatus {
    Queued,
    Running,
    Partial,
    Succeeded,
    Failed,
    Cancelled,
}

#[derive(Debug, Clone, Copy, PartialEq, Eq, Structural)]
pub enum ChunkKind {
    Paragraph,
    Table,
    ImageDescription,
}

#[derive(Debug, Clone, Copy, PartialEq, Eq, Structural)]
pub enum ProductState {
    Active,
    Archived,
}

#[derive(Debug, Clone, Copy, PartialEq, Eq, Structural)]
pub enum FactStatus {
    Candidate,
    Confirmed,
    Conflicted,
    Superseded,
}

pub fn copy_string_vec(v: &Vec<String>) -> (r: Vec<String>)
    ensures
        r@ == v@,
{
    let mut out: Vec<String> = Vec::new();
    let mut i: usize = 0;
    while i < v.len()
        invariant
            i <= v.len(),
            out@ == v@.take(i as int),
        decreases v.len() - i,
    {
        out.push(v[i].clone());
        assert(v@.take(i + 1) =~= v@.take(i as int).push(v@[i as int]));
        i += 1;
    }
    assert(v@.take(v.len() as int) =~= v@);
    out
}

pub fn copy_u128_vec(v: &Vec<u128>) -> (r: Vec<u128>)
    ensures
        r@ == v@,
{
    let mut out: Vec<u128> = Vec::new();
    let mut i: usize = 0;
    while i < v.len()
        invariant
            i <= v.len(),
            out@ == v@.take(i as int),
        decreases v.len() - i,
    {
        out.push(v[i]);
        assert(v@.take(i + 1) =~= v@.take(i as int).push(v@[i as int]));
        i += 1;
    }
    assert(v@.take(v.len() as int) =~= v@);
    out
}

/// The adapters wired in this release.
#[derive(Debug)]
pub struct KnowledgeCapability {
    pub upload_sessions: bool,
    pub memory_blob_adapter: bool,
    pub durable_blob_storage: bool,
    pub deterministic_text_parser: bool,
    pub url_fetch: bool,
    pub pdf_parser: bool,
    pub docx_parser: bool,
    pub xlsx_parser: bool,
    pub ocr: bool,
    pub vector_search: bool,
    pub llm_answering: bool,
    pub evidence_only_answering: bool,
    pub max_inline_text_bytes: usize,
    pub max_upload_bytes: u64,
    pub max_batch_files: u32,
    /// Formats the deterministic parser turns into chunks.
    pub supported_media_types: Vec<String>,
    /// Other accepted upload bytes are kept and verified but fail completion
    /// until a parser adapter is configured.
    pub accepted_unparsed_media_types: Vec<String>,
    pub limitations: Vec<String>,
}

pub open spec fn memory_limitations() -> Seq<Seq<char>> {
    seq![
        "uploaded bytes are kept only in process memory"@,
        "the first upload implementation buffers a whole request; production should use streaming direct object storage"@,
        "only text/plain and text/markdown are parsed"@,
        "a text declaration is parsed only after UTF-8 validation; the declared media type is not content sniffing"@,
        "URL acquisition, office/PDF parsing, OCR, vector search, and LLM answers require adapters"@,
    ]
}

fn push_text(v: &mut Vec<String>, s: &str)
    ensures
        strs(final(v)@) == strs(old(v)@).push(s@),
{
    let ghost before = v@;
    v.push(s.to_owned());
    assert(strs(v@) =~= strs(before).push(s@));
}

/// The capability of the in-memory assembly.
pub open spec fn is_memory_capability(c: KnowledgeCapability) -> bool {
    &&& c.upload_sessions && c.memory_blob_adapter && !c.durable_blob_storage && c.deterministic_text_parser
    &&& !c.url_fetch && !c.pdf_parser && !c.docx_parser && !c.xlsx_parser && !c.ocr
    &&& !c.vector_search && !c.llm_answering && c.evidence_only_answering
    &&& c.max_inline_text_bytes == MAX_INLINE_TEXT_BYTES
    &&& c.max_upload_bytes == MAX_UPLOAD_BYTES
    &&& c.max_batch_files == 100
    &&& strs(c.supported_media_types@) == seq!["text/plain"@, "text/markdown"@]
    &&& strs(c.accepted_unparsed_media_types@) == seq![
        "text/csv"@,
        "application/pdf"@,
        "application/vnd.openxmlformats-officedocument.wordprocessingml.document"@,
        "application/vnd.openxmlformats-officedocument.spreadsheetml.sheet"@,
    ]
    &&& strs(c.limitations@) == memory_limitations()
}

impl KnowledgeCapability {
    /// The in-memory assembly: uploads and plain-text parsing, nothing else.
    pub fn memory() -> (c: Self)
        ensures
            is_memory_capability(c),
            c.upload_sessions && c.memory_blob_adapter && !c.durable_blob_storage && c.deterministic_text_parser,
            !c.url_fetch && !c.pdf_parser && !c.docx_parser && !c.xlsx_parser && !c.ocr,
            !c.vector_search && !c.llm_answering && c.evidence_only_answering,
            c.max_inline_text_bytes == MAX_INLINE_TEXT_BYTES,
            c.max_upload_bytes == MAX_UPLOAD_BYTES,
            c.max_batch_files == 100,
            strs(c.supported_media_types@) == seq!["text/plain"@, "text/markdown"@],
            strs(c.accepted_unparsed_media_types@) == seq![
                "text/csv"@,
                "application/pdf"@,
                "application/vnd.openxmlformats-officedocument.wordprocessingml.document"@,
                "application/vnd.openxmlformats-officedocument.spreadsheetml.sheet"@,
            ],
            strs(c.limitations@) == memory_limitations(),
    {
        let mut supported: Vec<String> = Vec::new();
        push_text(&mut supported, "text/plain");
        push_text(&mut supported, "text/markdown");
        let mut unparsed: Vec<String> = Vec::new();
        push_text(&mut unparsed, "text/csv");
        push_text(&mut unparsed, "application/pdf");
        push_text(&mut unparsed, "application/vnd.openxmlformats-officedocument.wordprocessingml.document");
        push_text(&mut unparsed, "application/vnd.openxmlformats-officedocument.spreadsheetml.sheet");
        let mut limitations: Vec<String> = Vec::new();
        push_text(&mut limitations, "uploaded bytes are kept only in process memory");
        push_text(
            &mut limitations,
            "the first upload implementation buffers a whole request; production should use streaming direct object storage",
        );
        push_text(&mut limitations, "only text/plain and text/markdown are parsed");
        push_text(
            &mut limitations,
            "a text declaration is parsed only after UTF-8 validation; the declared media type is not content sniffing",
        );
        push_text(
            &mut limitations,
            "URL acquisition, office/PDF parsing, OCR, vector search, and LLM answers require adapters",
        );
        assert(strs(supported@) =~= seq!["text/plain"@, "text/markdown"@]);
        assert(strs(unparsed@) =~= seq![
            "text/csv"@,
            "application/pdf"@,
            "application/vnd.openxmlformats-officedocument.wordprocessingml.document"@,
            "application/vnd.openxmlformats-officedocument.spreadsheetml.sheet"@,
        ]);
        assert(strs(limitations@) =~= memory_limitations());
        KnowledgeCapability {
            upload_sessions: true,
            memory_blob_adapter: true,
            durable_blob_storage: false,
            deterministic_text_parser: true,
            url_fetch: false,
            pdf_parser: false,
            docx_parser: false,
            xlsx_parser: false,
            ocr: false,
            vector_search: false,
            llm_answering: false,
            evidence_only_answering: true,
            max_inline_text_bytes: MAX_INLINE_TEXT_BYTES,
            max_upload_bytes: MAX_UPLOAD_BYTES,
            max_batch_files: 100,
            supported_media_types: supported,
            accepted_unparsed_media_types: unparsed,
            limitations,
        }
    }

    /// The durable assembly: as the in-memory one, with durable blob storage
    /// and without the limitations that speak of process memory.
    pub fn durable_text_only() -> (c: Self)
        ensures
            c.upload_sessions && !c.memory_blob_adapter && c.durable_blob_storage && c.deterministic_text_parser,
            !c.url_fetch && !c.pdf_parser && !c.docx_parser && !c.xlsx_parser && !c.ocr,
            !c.vector_search && !c.llm_answering && c.evidence_only_answering,
            c.max_inline_text_bytes == MAX_INLINE_TEXT_BYTES,
            c.max_upload_bytes == MAX_UPLOAD_BYTES,
            c.max_batch_files == 100,
            strs(c.supported_media_types@) == seq!["text/plain"@, "text/markdown"@],
            strs(c.accepted_unparsed_media_types@) == seq![
                "text/csv"@,
                "application/pdf"@,
                "application/vnd.openxmlformats-officedocument.wordprocessingml.document"@,
                "application/vnd.openxmlformats-officedocument.spreadsheetml.sheet"@,
            ],
            strs(c.limitations@) == without_memory_note(memory_limitations()),
    {
        let memory = Self::memory();
        let ghost all = strs(memory.limitations@);
        let mut limitations: Vec<String> = Vec::new();
        let mut i: usize = 0;
        assert(all.take(0) =~= Seq::<Seq<char>>::empty());
        assert(strs(limitations@) =~= Seq::<Seq<char>>::empty());
        while i < memory.limitations.len()
            invariant
                i <= memory.limitations.len(),
                all == strs(memory.limitations@),
                strs(limitations@) == without_memory_note(all.take(i as int)),
            decreases memory.limitations.len() - i,
        {
            assert(all.take(i + 1).drop_last() =~= all.take(i as int));
            assert(all.take(i + 1).last() == memory.limitations@[i as int]@);
            if !crate::text::contains(memory.limitations[i].as_str(), "only in process memory") {
                push_text(&mut limitations, memory.limitations[i].as_str());
            }
            i += 1;
        }
        assert(all.take(all.len() as int) =~= all);
        KnowledgeCapability { memory_blob_adapter: false, durable_blob_storage: true, limitations, ..memory }
    }
}

/// The limitations that do not speak of process memory, in order.
pub open spec fn without_memory_note(s: Seq<Seq<char>>) -> Seq<Seq<char>>
    decreases s.len(),
{
    if s.len() == 0 {
        s
    } else if crate::text::has_substring(s.last(), "only in process memory"@) {
        without_memory_note(s.drop_last())
    } else {
        without_memory_note(s.drop_last()).push(s.last())
    }
}


// ---------------------------------------------------------------------------
// Records.
// ---------------------------------------------------------------------------

pub open spec fn knowledge_scope(operator_id: OperatorId, tenant_id: TenantId, project_id: ProjectId) -> TenantScope {
    TenantScope { operator_id, tenant_id, project_id: Some(project_id) }
}

#[derive(Debug)]
pub struct UploadSession {
    pub upload_session_id: u128,
    pub operator_id: OperatorId,
    pub tenant_id: TenantId,
    pub project_id: ProjectId,
    pub revision: i64,
    pub filename: String,
    pub declared_media_type: String,
    pub expected_size: u64,
    pub expected_sha256: String,
    pub purpose: KnowledgePurpose,
    pub state: UploadSessionState,
    /// Microseconds since the Unix epoch.
    pub expires_at: i64,
    pub staging_object_ref: Option<String>,
    pub committed_object_id: Option<u128>,
    pub operation_id: Option<u128>,
}

pub fn clone_opt_text(v: &Option<String>) -> (r: Option<String>)
    ensures
        r == *v,
{
    match v {
        Some(s) => Some(s.clone()),
        None => None,
    }
}

impl UploadSession {
    pub fn scope(&self) -> (s: TenantScope)
        ensures
            s == knowledge_scope(self.operator_id, self.tenant_id, self.project_id),
    {
        TenantScope::new(self.operator_id, self.tenant_id, Some(self.project_id))
    }

    pub fn copy(&self) -> (r: Self)
        ensures
            r == *self,
    {
        UploadSession {
            upload_session_id: self.upload_session_id,
            operator_id: self.operator_id,
            tenant_id: self.tenant_id,
            project_id: self.project_id,
            revision: self.revision,
            filename: self.filename.clone(),
            declared_media_type: self.declared_media_type.clone(),
            expected_size: self.expected_size,
            expected_sha256: self.expected_sha256.clone(),
            purpose: self.purpose,
            state: self.state,
            expires_at: self.expires_at,
            staging_object_ref: clone_opt_text(&self.staging_object_ref),
            committed_object_id: self.committed_object_id,
            operation_id: self.operation_id,
        }
    }
}

#[derive(Debug)]
pub struct StoredObject {
    pub object_id: u128,
    pub operator_id: OperatorId,
    pub tenant_id: TenantId,
    pub project_id: ProjectId,
    pub object_version: i64,
    pub backend: String,
    pub opaque_key: String,
    pub actual_size: u64,
    pub detected_media_type: String,
    pub sha256: String,
    pub state: StoredObjectState,
    pub created_at: i64,
}

impl StoredObject {
    pub fn copy(&self) -> (r: Self)
        ensures
            r == *self,
    {
        StoredObject {
            object_id: self.object_id,
            operator_id: self.operator_id,
            tenant_id: self.tenant_id,
            project_id: self.project_id,
            object_version: self.object_version,
            backend: self.backend.clone(),
            opaque_key: self.opaque_key.clone(),
            actual_size: self.actual_size,
            detected_media_type: self.detected_media_type.clone(),
            sha256: self.sha256.clone(),
            state: self.state,
            created_at: self.created_at,
        }
    }
}

/// Where a source's content comes from.
#[derive(Debug)]
pub enum SourceLocator {
    /// Text given inline with the import.
    InlineText,
    /// Content waiting for an adapter that is not configured.
    Pending { capability: String },
}

#[derive(Debug)]
pub struct Source {
    pub source_id: u128,
    pub operator_id: OperatorId,
    pub tenant_id: TenantId,
    pub project_id: ProjectId,
    pub revision: i64,
    pub kind: SourceKind,
    pub name: String,
    pub purpose: KnowledgePurpose,
    pub state: SourceState,
    pub locator: SourceLocator,
    pub current_version_id: Option<u128>,
    pub sync_enabled: bool,
    pub next_sync_at: Option<i64>,
    pub last_sync_at: Option<i64>,
}

impl Source {
    pub fn copy(&self) -> (r: Self)
        ensures
            r == *self,
    {
        Source {
            source_id: self.source_id,
            operator_id: self.operator_id,
            tenant_id: self.tenant_id,
            project_id: self.project_id,
            revision: self.revision,
            kind: self.kind,
            name: self.name.clone(),
            purpose: self.purpose,
            state: self.state,
            locator: match &self.locator {
                SourceLocator::InlineText => SourceLocator::InlineText,
                SourceLocator::Pending { capability } => SourceLocator::Pending { capability: capability.clone() },
            },
            current_version_id: self.current_version_id,
            sync_enabled: self.sync_enabled,
            next_sync_at: self.next_sync_at,
            last_sync_at: self.last_sync_at,
        }
    }
}

#[derive(Debug)]
pub struct SourceVersion {
    pub source_version_id: u128,
    pub operator_id: OperatorId,
    pub tenant_id: TenantId,
    pub project_id: ProjectId,
    pub source_id: u128,
    pub version: i64,
    pub object_id: Option<u128>,
    pub object_version: Option<i64>,
    pub content_sha256: String,
    pub captured_at: i64,
    pub original_url: Option<String>,
    pub parent_version_id: Option<u128>,
    pub parser_version: String,
    pub extraction_version: String,
    pub created_at: i64,
}

impl SourceVersion {
    pub fn copy(&self) -> (r: Self)
        ensures
            r == *self,
    {
        SourceVersion {
            source_version_id: self.source_version_id,
            operator_id: self.operator_id,
            tenant_id: self.tenant_id,
            project_id: self.project_id,
            source_id: self.source_id,
            version: self.version,
            object_id: self.object_id,
            object_version: self.object_version,
            content_sha256: self.content_sha256.clone(),
            captured_at: self.captured_at,
            original_url: clone_opt_text(&self.original_url),
            parent_version_id: self.parent_version_id,
            parser_version: self.parser_version.clone(),
            extraction_version: self.extraction_version.clone(),
            created_at: self.created_at,
        }
    }
}

/// One error recorded on an import job.
#[derive(Debug)]
pub struct ImportError {
    pub code: String,
    pub capability: String,
}

#[derive(Debug)]
pub struct ImportJob {
    pub import_job_id: u128,
    pub operator_id: OperatorId,
    pub tenant_id: TenantId,
    pub project_id: ProjectId,
    pub operation_id: u128,
    pub source_id: u128,
    pub source_version_id: Option<u128>,
    pub stage: ImportStage,
    pub status: ImportStatus,
    pub attempt: i32,
    pub lease_until: Option<i64>,
    pub input_hash: String,
    pub stage_output_refs: Vec<String>,
    pub completed_units: i32,
    pub failed_units: i32,
    pub errors: Vec<ImportError>,
    pub resumed_from: Option<u128>,
}

pub struct ImportJobV {
    pub import_job_id: u128,
    pub operator_id: OperatorId,
    pub tenant_id: TenantId,
    pub project_id: ProjectId,
    pub operation_id: u128,
    pub source_id: u128,
    pub source_version_id: Option<u128>,
    pub stage: ImportStage,
    pub status: ImportStatus,
    pub attempt: i32,
    pub lease_until: Option<i64>,
    pub input_hash: Seq<char>,
    pub stage_output_refs: Seq<Seq<char>>,
    pub completed_units: i32,
    pub failed_units: i32,
    pub errors: Seq<(Seq<char>, Seq<char>)>,
    pub resumed_from: Option<u128>,
}

impl View for ImportJob {
    type V = ImportJobV;

    open spec fn view(&self) -> ImportJobV {
        ImportJobV {
            import_job_id: self.import_job_id,
            operator_id: self.operator_id,
            tenant_id: self.tenant_id,
            project_id: self.project_id,
            operation_id: self.operation_id,
            source_id: self.source_id,
            source_version_id: self.source_version_id,
            stage: self.stage,
            status: self.status,
            attempt: self.attempt,
            lease_until: self.lease_until,
            input_hash: self.input_hash@,
            stage_output_refs: strs(self.stage_output_refs@),
            completed_units: self.completed_units,
            failed_units: self.failed_units,
            errors: self.errors@.map_values(|e: ImportError| (e.code@, e.capability@)),
            resumed_from: self.resumed_from,
        }
    }
}

impl ImportJob {
    pub fn copy(&self) -> (r: Self)
        ensures
            r@ == self@,
    {
        let mut errors: Vec<ImportError> = Vec::new();
        let mut i: usize = 0;
        while i < self.errors.len()
            invariant
                i <= self.errors.len(),
                errors@.len() == i,
                forall|k: int| 0 <= k < i ==> (#[trigger] errors@[k]).code@ == self.errors@[k].code@ && errors@[k].capability@
                    == self.errors@[k].capability@,
            decreases self.errors.len() - i,
        {
            errors.push(ImportError { code: self.errors[i].code.clone(), capability: self.errors[i].capability.clone() });
            i += 1;
        }
        assert(errors@.map_values(|e: ImportError| (e.code@, e.capability@)) =~= self.errors@.map_values(
            |e: ImportError| (e.code@, e.capability@),
        ));
        let refs = copy_string_vec(&self.stage_output_refs);
        ImportJob {
            import_job_id: self.import_job_id,
            operator_id: self.operator_id,
            tenant_id: self.tenant_id,
            project_id: self.project_id,
            operation_id: self.operation_id,
            source_id: self.source_id,
            source_version_id: self.source_version_id,
            stage: self.stage,
            status: self.status,
            attempt: self.attempt,
            lease_until: self.lease_until,
            input_hash: self.input_hash.clone(),
            stage_output_refs: refs,
            completed_units: self.completed_units,
            failed_units: self.failed_units,
            errors,
            resumed_from: self.resumed_from,
        }
    }
}

/// Where in its source a chunk of evidence sits.
#[derive(Debug)]
pub enum ChunkLocator {
    Text { start_line: u32, end_line: u32, start_char: u32, end_char: u32 },
    Web {
        snapshot_object_id: u128,
        original_url: String,
        selector: Option<String>,
        start_char: Option<u32>,
        end_char: Option<u32>,
    },
    Pdf { page: u32, bbox: Option<Vec<i32>>, ocr: bool },
    Docx { heading_path: Vec<String>, paragraph_index: u32 },
    Xlsx { sheet: String, range: String, header_range: Option<String> },
    Csv { start_row: u32, end_row: u32, start_column: u32, end_column: u32 },
    Manual,
}

pub enum LocatorV {
    Text { start_line: u32, end_line: u32, start_char: u32, end_char: u32 },
    Web {
        snapshot_object_id: u128,
        original_url: Seq<char>,
        selector: Option<Seq<char>>,
        start_char: Option<u32>,
        end_char: Option<u32>,
    },
    Pdf { page: u32, bbox: Option<Seq<i32>>, ocr: bool },
    Docx { heading_path: Seq<Seq<char>>, paragraph_index: u32 },
    Xlsx { sheet: Seq<char>, range: Seq<char>, header_range: Option<Seq<char>> },
    Csv { start_row: u32, end_row: u32, start_column: u32, end_column: u32 },
    Manual,
}

impl View for ChunkLocator {
    type V = LocatorV;

    open spec fn view(&self) -> LocatorV {
        match self {
            ChunkLocator::Text { start_line, end_line, start_char, end_char } => LocatorV::Text {
                start_line: *start_line,
                end_line: *end_line,
                start_char: *start_char,
                end_char: *end_char,
            },
            ChunkLocator::Web { snapshot_object_id, original_url, selector, start_char, end_char } => LocatorV::Web {
                snapshot_object_id: *snapshot_object_id,
                original_url: original_url@,
                selector: opt_text(*selector),
                start_char: *start_char,
                end_char: *end_char,
            },
            ChunkLocator::Pdf { page, bbox, ocr } => LocatorV::Pdf {
                page: *page,
                bbox: match bbox {
                    Some(b) => Some(b@),
                    None => None,
                },
                ocr: *ocr,
            },
            ChunkLocator::Docx { heading_path, paragraph_index } => LocatorV::Docx {
                heading_path: strs(heading_path@),
                paragraph_index: *paragraph_index,
            },
            ChunkLocator::Xlsx { sheet, range, header_range } => LocatorV::Xlsx {
                sheet: sheet@,
                range: range@,
                header_range: opt_text(*header_range),
            },
            ChunkLocator::Csv { start_row, end_row, start_column, end_column } => LocatorV::Csv {
                start_row: *start_row,
                end_row: *end_row,
                start_column: *start_column,
                end_column: *end_column,
            },
            ChunkLocator::Manual => LocatorV::Manual,
        }
    }
}

fn copy_i32_vec(v: &Vec<i32>) -> (r: Vec<i32>)
    ensures
        r@ == v@,
{
    let mut out: Vec<i32> = Vec::new();
    let mut i: usize = 0;
    while i < v.len()
        invariant
            i <= v.len(),
            out@ == v@.take(i as int),
        decreases v.len() - i,
    {
        out.push(v[i]);
        assert(v@.take(i + 1) =~= v@.take(i as int).push(v@[i as int]));
        i += 1;
    }
    assert(v@.take(v.len() as int) =~= v@);
    out
}

impl ChunkLocator {
    pub fn copy(&self) -> (r: Self)
        ensures
            r@ == self@,
    {
        match self {
            ChunkLocator::Text { start_line, end_line, start_char, end_char } => ChunkLocator::Text {
                start_line: *start_line,
                end_line: *end_line,
                start_char: *start_char,
                end_char: *end_char,
            },
            ChunkLocator::Web { snapshot_object_id, original_url, selector, start_char, end_char } => ChunkLocator::Web {
                snapshot_object_id: *snapshot_object_id,
                original_url: original_url.clone(),
                selector: clone_opt_text(selector),
                start_char: *start_char,
                end_char: *end_char,
            },
            ChunkLocator::Pdf { page, bbox, ocr } => ChunkLocator::Pdf {
                page: *page,
                bbox: match bbox {
                    Some(b) => Some(copy_i32_vec(b)),
                    None => None,
                },
                ocr: *ocr,
            },
            ChunkLocator::Docx { heading_path, paragraph_index } => ChunkLocator::Docx {
                heading_path: copy_string_vec(heading_path),
                paragraph_index: *paragraph_index,
            },
            ChunkLocator::Xlsx { sheet, range, header_range } => ChunkLocator::Xlsx {
                sheet: sheet.clone(),
                range: range.clone(),
                header_range: clone_opt_text(header_range),
            },
            ChunkLocator::Csv { start_row, end_row, start_column, end_column } => ChunkLocator::Csv {
                start_row: *start_row,
                end_row: *end_row,
                start_column: *start_column,
                end_column: *end_column,
            },
            ChunkLocator::Manual => ChunkLocator::Manual,
        }
    }
}

#[derive(Debug)]
pub struct Chunk {
    pub chunk_id: u128,
    pub operator_id: OperatorId,
    pub tenant_id: TenantId,
    pub project_id: ProjectId,
    pub source_version_id: u128,
    pub ordinal: i32,
    pub kind: ChunkKind,
    pub text: String,
    pub text_hash: String,
    pub locator: ChunkLocator,
    pub product_ids: Vec<u128>,
    pub market: Option<String>,
    pub language: Option<String>,
    pub extraction_method: String,
    /// Extraction confidence in thousandths (1000 is certain).
    pub confidence_milli: u32,
}

pub struct ChunkV {
    pub chunk_id: u128,
    pub operator_id: OperatorId,
    pub tenant_id: TenantId,
    pub project_id: ProjectId,
    pub source_version_id: u128,
    pub ordinal: i32,
    pub kind: ChunkKind,
    pub text: Seq<char>,
    pub text_hash: Seq<char>,
    pub locator: LocatorV,
    pub product_ids: Seq<u128>,
    pub market: Option<Seq<char>>,
    pub language: Option<Seq<char>>,
    pub extraction_method: Seq<char>,
    pub confidence_milli: u32,
}

impl View for Chunk {
    type V = ChunkV;

    open spec fn view(&self) -> ChunkV {
        ChunkV {
            chunk_id: self.chunk_id,
            operator_id: self.operator_id,
            tenant_id: self.tenant_id,
            project_id: self.project_id,
            source_version_id: self.source_version_id,
            ordinal: self.ordinal,
            kind: self.kind,
            text: self.text@,
            text_hash: self.text_hash@,
            locator: self.locator@,
            product_ids: self.product_ids@,
            market: opt_text(self.market),
            language: opt_text(self.language),
            extraction_method: self.extraction_method@,
            confidence_milli: self.confidence_milli,
        }
    }
}

impl Chunk {
    pub fn copy(&self) -> (r: Self)
        ensures
            r@ == self@,
    {
        Chunk {
            chunk_id: self.chunk_id,
            operator_id: self.operator_id,
            tenant_id: self.tenant_id,
            project_id: self.project_id,
            source_version_id: self.source_version_id,
            ordinal: self.ordinal,
            kind: self.kind,
            text: self.text.clone(),
            text_hash: self.text_hash.clone(),
            locator: self.locator.copy(),
            product_ids: copy_u128_vec(&self.product_ids),
            market: clone_opt_text(&self.market),
            language: clone_opt_text(&self.language),
            extraction_method: self.extraction_method.clone(),
            confidence_milli: self.confidence_milli,
        }
    }
}

#[derive(Debug)]
pub struct EvidenceRef {
    pub source_version_id: u128,
    pub chunk_id: Option<u128>,
    pub locator: ChunkLocator,
}

#[derive(Debug)]
pub struct Product {
    pub product_id: u128,
    pub operator_id: OperatorId,
    pub tenant_id: TenantId,
    pub project_id: ProjectId,
    pub revision: i64,
    pub name: String,
    pub model: Option<String>,
    pub aliases: Vec<String>,
    pub state: ProductState,
    pub evidence_refs: Vec<EvidenceRef>,
}

#[derive(Debug)]
pub struct Fact {
    pub fact_id: u128,
    pub operator_id: OperatorId,
    pub tenant_id: TenantId,
    pub project_id: ProjectId,
    pub revision: i64,
    pub subject_id: String,
    pub product_id: Option<u128>,
    pub model: Option<String>,
    pub attribute: String,
    /// The typed value as JSON text.
    pub typed_value: String,
    pub unit: Option<String>,
    pub market: Option<String>,
    pub language: Option<String>,
    pub currency: Option<String>,
    pub effective_from: Option<i64>,
    pub effective_to: Option<i64>,
    pub status: FactStatus,
    pub pinned: bool,
    pub evidence_refs: Vec<EvidenceRef>,
    pub supersedes_fact_id: Option<u128>,
}

#[derive(Debug)]
pub struct KnowledgeCoverage {
    pub source_version_count: u64,
    pub chunk_count: u64,
    pub failed_source_count: u64,
    pub blocked_reasons: Vec<String>,
}

/// The parser, extractor and index a release was built with.
#[derive(Debug)]
pub struct PipelineVersions {
    pub parser: String,
    pub extractor: String,
    pub index: String,
}

#[derive(Debug)]
pub struct KnowledgeRelease {
    pub knowledge_release_id: u128,
    pub operator_id: OperatorId,
    pub tenant_id: TenantId,
    pub project_id: ProjectId,
    pub sequence: i64,
    pub previous_release_id: Option<u128>,
    pub source_version_refs: Vec<u128>,
    pub fact_revision_refs: Vec<(u128, i64)>,
    pub index_build_id: String,
    pub pipeline_versions: PipelineVersions,
    pub content_hash: String,
    pub coverage: KnowledgeCoverage,
    pub created_at: i64,
}

pub struct ReleaseV {
    pub knowledge_release_id: u128,
    pub operator_id: OperatorId,
    pub tenant_id: TenantId,
    pub project_id: ProjectId,
    pub sequence: i64,
    pub previous_release_id: Option<u128>,
    pub source_version_refs: Seq<u128>,
    pub fact_revision_refs: Seq<(u128, i64)>,
    pub index_build_id: Seq<char>,
    pub pipeline_versions: (Seq<char>, Seq<char>, Seq<char>),
    pub content_hash: Seq<char>,
    pub source_version_count: u64,
    pub chunk_count: u64,
    pub failed_source_count: u64,
    pub blocked_reasons: Seq<Seq<char>>,
    pub created_at: i64,
}

impl View for KnowledgeRelease {
    type V = ReleaseV;

    open spec fn view(&self) -> ReleaseV {
        ReleaseV {
            knowledge_release_id: self.knowledge_release_id,
            operator_id: self.operator_id,
            tenant_id: self.tenant_id,
            project_id: self.project_id,
            sequence: self.sequence,
            previous_release_id: self.previous_release_id,
            source_version_refs: self.source_version_refs@,
            fact_revision_refs: self.fact_revision_refs@,
            index_build_id: self.index_build_id@,
            pipeline_versions: (
                self.pipeline_versions.parser@,
                self.pipeline_versions.extractor@,
                self.pipeline_versions.index@,
            ),
            content_hash: self.content_hash@,
            source_version_count: self.coverage.source_version_count,
            chunk_count: self.coverage.chunk_count,
            failed_source_count: self.coverage.failed_source_count,
            blocked_reasons: strs(self.coverage.blocked_reasons@),
            created_at: self.created_at,
        }
    }
}

impl KnowledgeRelease {
    pub fn copy(&self) -> (r: Self)
        ensures
            r@ == self@,
    {
        let mut facts: Vec<(u128, i64)> = Vec::new();
        let mut i: usize = 0;
        while i < self.fact_revision_refs.len()
            invariant
                i <= self.fact_revision_refs.len(),
                facts@ == self.fact_revision_refs@.take(i as int),
            decreases self.fact_revision_refs.len() - i,
        {
            facts.push(self.fact_revision_refs[i]);
            assert(self.fact_revision_refs@.take(i + 1) =~= self.fact_revision_refs@.take(i as int).push(
                self.fact_revision_refs@[i as int],
            ));
            i += 1;
        }
        assert(self.fact_revision_refs@.take(self.fact_revision_refs.len() as int) =~= self.fact_revision_refs@);
        let blocked = copy_string_vec(&self.coverage.blocked_reasons);
        KnowledgeRelease {
            knowledge_release_id: self.knowledge_release_id,
            operator_id: self.operator_id,
            tenant_id: self.tenant_id,
            project_id: self.project_id,
            sequence: self.sequence,
            previous_release_id: self.previous_release_id,
            source_version_refs: copy_u128_vec(&self.source_version_refs),
            fact_revision_refs: facts,
            index_build_id: self.index_build_id.clone(),
            pipeline_versions: PipelineVersions {
                parser: self.pipeline_versions.parser.clone(),
                extractor: self.pipeline_versions.extractor.clone(),
                index: self.pipeline_versions.index.clone(),
            },
            content_hash: self.content_hash.clone(),
            coverage: KnowledgeCoverage {
                source_version_count: self.coverage.source_version_count,
                chunk_count: self.coverage.chunk_count,
                failed_source_count: self.coverage.failed_source_count,
                blocked_reasons: blocked,
            },
            created_at: self.created_at,
        }
    }
}

#[derive(Debug)]
pub struct CurrentKnowledgeRelease {
    pub project_id: ProjectId,
    pub knowledge_release_id: Option<u128>,
    pub sequence: Option<i64>,
}

#[derive(Debug)]
pub struct KnowledgeSearchRequest {
    pub query: String,
    pub purpose: KnowledgePurpose,
    pub limit: u32,
    pub knowledge_release_id: Option<u128>,
}

/// Searches read public sources unless asked otherwise.
pub fn default_search_purpose() -> (p: KnowledgePurpose)
    ensures
        p == KnowledgePurpose::Public,
{
    KnowledgePurpose::Public
}

pub fn default_search_limit() -> (n: u32)
    ensures
        n == 10,
{
    10
}

/// Navigation-ready evidence for the source detail view.
#[derive(Debug)]
pub struct KnowledgeEvidence {
    pub source_id: u128,
    pub source_version_id: u128,
    pub chunk_id: u128,
    pub source_name: String,
    pub purpose: KnowledgePurpose,
    pub locator: ChunkLocator,
    pub text: String,
    pub quote: String,
}

pub struct EvidenceV {
    pub source_id: u128,
    pub source_version_id: u128,
    pub chunk_id: u128,
    pub source_name: Seq<char>,
    pub purpose: KnowledgePurpose,
    pub locator: LocatorV,
    pub text: Seq<char>,
    pub quote: Seq<char>,
}

impl View for KnowledgeEvidence {
    type V = EvidenceV;

    open spec fn view(&self) -> EvidenceV {
        EvidenceV {
            source_id: self.source_id,
            source_version_id: self.source_version_id,
            chunk_id: self.chunk_id,
            source_name: self.source_name@,
            purpose: self.purpose,
            locator: self.locator@,
            text: self.text@,
            quote: self.quote@,
        }
    }
}

#[derive(Debug)]
pub struct KnowledgeSearchResult {
    pub knowledge_release_id: Option<u128>,
    pub evidence: Vec<KnowledgeEvidence>,
    pub capability_missing: Option<String>,
}

#[derive(Debug, Clone, Copy, PartialEq, Eq, Structural)]
pub enum KnowledgeAnswerStatus {
    Answered,
    InsufficientEvidence,
    Conflicted,
}

#[derive(Debug)]
pub struct KnowledgeAskResult {
    pub knowledge_release_id: Option<u128>,
    pub mode: String,
    pub answer_status: KnowledgeAnswerStatus,
    pub answer: String,
    pub evidence: Vec<KnowledgeEvidence>,
    pub capability_missing: Option<String>,
}

#[derive(Debug)]
pub struct UploadSessionCommand {
    pub filename: String,
    pub declared_media_type: String,
    pub expected_size: u64,
    pub expected_sha256: String,
    pub purpose: KnowledgePurpose,
}

#[derive(Debug)]
pub struct ImportItem {
    pub client_item_id: String,
    pub kind: SourceKind,
    pub name: String,
    pub purpose: KnowledgePurpose,
    pub text: Option<String>,
    pub url: Option<String>,
    pub object_id: Option<u128>,
    pub knowledge_release_id: Option<u128>,
}

impl ImportItem {
    pub fn copy(&self) -> (r: Self)
        ensures
            r == *self,
    {
        ImportItem {
            client_item_id: self.client_item_id.clone(),
            kind: self.kind,
            name: self.name.clone(),
            purpose: self.purpose,
            text: clone_opt_text(&self.text),
            url: clone_opt_text(&self.url),
            object_id: self.object_id,
            knowledge_release_id: self.knowledge_release_id,
        }
    }
}

#[derive(Debug)]
pub struct ImportAcceptance {
    pub client_item_id: String,
    pub status: ImportStatus,
    pub source: Option<Source>,
    pub source_version: Option<SourceVersion>,
    pub import_job: Option<ImportJob>,
    pub operation: Option<crate::operation::Operation>,
    pub release: Option<KnowledgeRelease>,
    pub error: Option<AppError>,
}

pub struct ImportAcceptanceV {
    pub client_item_id: Seq<char>,
    pub status: ImportStatus,
    pub source: Option<Source>,
    pub source_version: Option<SourceVersion>,
    pub import_job: Option<ImportJobV>,
    pub operation: Option<crate::operation::Operation>,
    pub release: Option<ReleaseV>,
    pub error: Option<ErrorV>,
}

impl View for ImportAcceptance {
    type V = ImportAcceptanceV;

    open spec fn view(&self) -> ImportAcceptanceV {
        ImportAcceptanceV {
            client_item_id: self.client_item_id@,
            status: self.status,
            source: self.source,
            source_version: self.source_version,
            import_job: match self.import_job {
                Some(j) => Some(j@),
                None => None,
            },
            operation: self.operation,
            release: match self.release {
                Some(r) => Some(r@),
                None => None,
            },
            error: match self.error {
                Some(e) => Some(e@),
                None => None,
            },
        }
    }
}

impl ImportAcceptance {
    pub fn copy(&self) -> (r: Self)
        ensures
            r@ == self@,
    {
        ImportAcceptance {
            client_item_id: self.client_item_id.clone(),
            status: self.status,
            source: match &self.source {
                Some(s) => Some(s.copy()),
                None => None,
            },
            source_version: match &self.source_version {
                Some(v) => Some(v.copy()),
                None => None,
            },
            import_job: match &self.import_job {
                Some(j) => Some(j.copy()),
                None => None,
            },
            operation: match &self.operation {
                Some(o) => Some(o.copy()),
                None => None,
            },
            release: match &self.release {
                Some(r) => Some(r.copy()),
                None => None,
            },
            error: match &self.error {
                Some(e) => Some(e.copy()),
                None => None,
            },
        }
    }
}

#[derive(Debug)]
pub struct ImportBatchAcceptance {
    pub items: Vec<ImportAcceptance>,
}

#[derive(Debug)]
pub struct KnowledgeOverview {
    pub source_count: u64,
    pub fact_count: u64,
    pub importing_count: u64,
    pub current_release_id: Option<u128>,
}

#[derive(Debug)]
pub struct SourceDetail {
    pub source: Source,
    pub versions: Vec<SourceVersion>,
    pub chunks: Vec<Chunk>,
    pub facts: Vec<Fact>,
    pub import_jobs: Vec<ImportJob>,
}


// ---------------------------------------------------------------------------
// Media types, digests and paragraph chunks.
// ---------------------------------------------------------------------------

/// The part of a media type before its parameters, trimmed and in lower case.
pub open spec fn media_type_norm(value: Seq<char>) -> Seq<char> {
    let head = match crate::text::split_once_spec(value, ';') {
        Some((h, _)) => h,
        None => value,
    };
    ascii_lower(trimmed(head))
}

pub fn normalize_media_type(value: &str) -> (r: String)
    ensures
        r@ == media_type_norm(value@),
{
    let head = match crate::text::split_once(value, ';') {
        Some((h, _)) => h,
        None => value,
    };
    to_ascii_lowercase(trim(head))
}

pub open spec fn is_text_media(value: Seq<char>) -> bool {
    let n = media_type_norm(value);
    n == "text/plain"@ || n == "text/markdown"@ || n == "text/x-markdown"@
}

/// Whether the deterministic parser reads this declared media type.
pub fn is_text_media_type(value: &str) -> (r: bool)
    ensures
        r == is_text_media(value@),
{
    let n = normalize_media_type(value);
    crate::text::str_eq(n.as_str(), "text/plain") || crate::text::str_eq(n.as_str(), "text/markdown")
        || crate::text::str_eq(n.as_str(), "text/x-markdown")
}

pub open spec fn sha256_rule(value: Seq<char>) -> Result<(), ErrorV> {
    if value.len() == 64 && all_chars(value, |c: char| is_ascii_hex(c)) {
        Ok(())
    } else {
        Err(invalid("expected_sha256 must be a 64-character hexadecimal SHA-256"@))
    }
}

/// A 64-character hexadecimal SHA-256.
pub fn validate_sha256(value: &str) -> (r: Result<(), AppError>)
    ensures
        match r {
            Ok(()) => sha256_rule(value@) is Ok,
            Err(e) => sha256_rule(value@) == Err::<(), ErrorV>(e@),
        },
{
    if value.unicode_len() != 64 || !all_hex(value) {
        return Err(AppError::invalid_request("expected_sha256 must be a 64-character hexadecimal SHA-256"));
    }
    Ok(())
}

/// A line without the carriage return of a `\r\n` ending.
pub open spec fn strip_cr(line: Seq<char>) -> Seq<char> {
    if line.len() > 0 && line.last() == '\r' {
        line.drop_last()
    } else {
        line
    }
}

/// The lines of a text as `str::lines` yields them: split at `\n`, a
/// `\r` before the `\n` removed, and no empty line after a final `\n`.
pub open spec fn text_lines(s: Seq<char>) -> Seq<Seq<char>>
    decreases s.len(),
{
    match crate::text::first_pos(s, '\n') {
        Some(i) => if i < s.len() {
            seq![strip_cr(s.take(i as int))] + text_lines(s.skip((i + 1) as int))
        } else {
            seq![s]
        },
        None => if s.len() == 0 {
            Seq::empty()
        } else {
            seq![s]
        },
    }
}

/// The characters lines take with one separator each.
pub open spec fn lines_width(ls: Seq<Seq<char>>) -> int
    decreases ls.len(),
{
    if ls.len() == 0 {
        0
    } else {
        ls[0].len() + 1 + lines_width(ls.drop_first())
    }
}

pub proof fn lemma_lines_width(s: Seq<char>)
    ensures
        lines_width(text_lines(s)) <= s.len() + 1,
        text_lines(s).len() <= s.len() + 1,
    decreases s.len(),
{
    crate::text::lemma_first_pos(s, '\n');
    let ls = text_lines(s);
    match crate::text::first_pos(s, '\n') {
        Some(i) => if i < s.len() {
            lemma_lines_width(s.skip((i + 1) as int));
            assert(ls.drop_first() =~= text_lines(s.skip((i + 1) as int)));
            assert(ls[0] == strip_cr(s.take(i as int)));
            assert(ls[0].len() <= i);
            assert(lines_width(ls) == ls[0].len() + 1 + lines_width(ls.drop_first()));
        } else {
            assert(ls.drop_first() =~= Seq::<Seq<char>>::empty());
        },
        None => {
            if s.len() > 0 {
                assert(ls.drop_first() =~= Seq::<Seq<char>>::empty());
                assert(lines_width(ls) == ls[0].len() + 1 + lines_width(ls.drop_first()));
            }
        },
    }
}

pub proof fn lemma_lines_width_nonneg(ls: Seq<Seq<char>>)
    ensures
        lines_width(ls) >= 0,
    decreases ls.len(),
{
    if ls.len() > 0 {
        lemma_lines_width_nonneg(ls.drop_first());
    }
}

fn strip_carriage_return(line: &str) -> (r: &str)
    ensures
        r@ == strip_cr(line@),
{
    let n = line.unicode_len();
    if n > 0 && line.get_char(n - 1) == '\r' {
        let r = line.substring_char(0, n - 1);
        assert(r@ =~= line@.drop_last());
        r
    } else {
        line
    }
}

/// `str::lines`, as a list.
pub fn split_lines(text: &str) -> (lines: Vec<String>)
    ensures
        strs(lines@) == text_lines(text@),
{
    let mut out: Vec<String> = Vec::new();
    let mut rest: &str = text;
    assert(strs(out@) + text_lines(rest@) =~= text_lines(text@));
    loop
        invariant
            strs(out@) + text_lines(rest@) == text_lines(text@),
        decreases rest@.len(),
    {
        match crate::text::split_once(rest, '\n') {
            Some((line, tail)) => {
                proof {
                    crate::text::lemma_first_pos(rest@, '\n');
                }
                let ghost before = out@;
                let l = strip_carriage_return(line);
                out.push(l.to_owned());
                proof {
                    assert(strs(out@) =~= strs(before).push(strip_cr(line@)));
                    let i = crate::text::first_pos(rest@, '\n')->0;
                    assert(text_lines(rest@) == seq![strip_cr(rest@.take(i as int))] + text_lines(rest@.skip((i + 1) as int)));
                    assert(strs(out@) + text_lines(tail@) =~= strs(before) + text_lines(rest@));
                }
                rest = tail;
            },
            None => {
                if rest.unicode_len() > 0 {
                    let ghost before = out@;
                    out.push(rest.to_owned());
                    assert(strs(out@) =~= strs(before).push(rest@));
                    assert(strs(out@) =~= strs(before) + text_lines(rest@));
                } else {
                    assert(strs(out@) =~= strs(out@) + text_lines(rest@));
                }
                return out;
            },
        }
    }
}

/// A paragraph found in a text: its trimmed body and where it sits.
pub struct Paragraph {
    pub text: Seq<char>,
    pub start_line: int,
    pub end_line: int,
    pub start_char: int,
    pub end_char: int,
}

/// The state of the paragraph scan after some lines.
pub struct ScanState {
    pub found: Seq<Paragraph>,
    pub start_line: int,
    pub start_char: int,
    pub current: Seq<char>,
    pub end_line: int,
    pub offset: int,
}

/// Closes the paragraph in progress, keeping it only when it has text.
pub open spec fn close_paragraph(found: Seq<Paragraph>, current: Seq<char>, start_line: int, end_line: int, start_char: int, end_char: int) -> Seq<Paragraph> {
    if trimmed(current).len() == 0 {
        found
    } else {
        found.push(Paragraph { text: trimmed(current), start_line, end_line, start_char, end_char })
    }
}

/// One line read: a blank line closes the paragraph, another line joins it.
/// Lines are numbered from 1; characters are counted with one separator per
/// line.
pub open spec fn scan_line(st: ScanState, line: Seq<char>, number: int) -> ScanState {
    if trimmed(line).len() == 0 {
        ScanState {
            found: close_paragraph(st.found, st.current, st.start_line, st.end_line, st.start_char, st.offset),
            start_line: number + 1,
            start_char: st.offset + line.len() + 1,
            current: Seq::empty(),
            end_line: st.end_line,
            offset: st.offset + line.len() + 1,
        }
    } else {
        ScanState {
            current: if st.current.len() == 0 {
                line
            } else {
                st.current + "\n"@ + line
            },
            end_line: number,
            offset: st.offset + line.len() + 1,
            ..st
        }
    }
}

/// The scan over `lines`, the first of which has number `first`.
pub open spec fn scan_lines(st: ScanState, lines: Seq<Seq<char>>, first: int) -> ScanState
    decreases lines.len(),
{
    if lines.len() == 0 {
        st
    } else {
        scan_lines(scan_line(st, lines[0], first), lines.drop_first(), first + 1)
    }
}

pub open spec fn scan_start() -> ScanState {
    ScanState { found: Seq::empty(), start_line: 1, start_char: 0, current: Seq::empty(), end_line: 0, offset: 0 }
}

/// The paragraphs of a text: runs of non-blank lines, joined by `\n` and
/// trimmed, each with its first and last line and its character range.
pub open spec fn paragraphs(text: Seq<char>) -> Seq<Paragraph> {
    let st = scan_lines(scan_start(), text_lines(text), 1);
    close_paragraph(
        st.found,
        st.current,
        st.start_line,
        if st.end_line >= st.start_line { st.end_line } else { st.start_line },
        st.start_char,
        st.offset,
    )
}

/// A line that holds nothing but whitespace.
pub open spec fn blank_line(line: Seq<char>) -> bool {
    trimmed(line).len() == 0
}

/// Lines joined by `\n`.
pub open spec fn joined_lines(ls: Seq<Seq<char>>) -> Seq<char>
    decreases ls.len(),
{
    if ls.len() == 0 {
        Seq::empty()
    } else if ls.len() == 1 {
        ls[0]
    } else {
        joined_lines(ls.drop_last()) + "\n"@ + ls.last()
    }
}

/// Lines `first` to `last` of `lines` (numbered from 1) are all non-blank.
pub open spec fn lines_nonblank(lines: Seq<Seq<char>>, first: int, last: int) -> bool {
    forall|n: int| first <= n <= last ==> !blank_line(#[trigger] lines[n - 1])
}

/// The characters before the first `n` lines end, counting one separator
/// after each line.
pub open spec fn line_start(lines: Seq<Seq<char>>, n: int) -> int
    decreases n,
{
    if n <= 0 {
        0
    } else {
        line_start(lines, n - 1) + lines[n - 1].len() + 1
    }
}

/// `p` is made of lines `p.start_line` to `p.end_line` of `lines`: they
/// exist, none of them is blank, its text is them joined by `\n` and
/// trimmed, and its characters run from the start of its first line to past
/// the separator of its last.
pub open spec fn paragraph_of_lines(lines: Seq<Seq<char>>, p: Paragraph) -> bool {
    &&& 1 <= p.start_line <= p.end_line <= lines.len()
    &&& lines_nonblank(lines, p.start_line, p.end_line)
    &&& p.text == trimmed(joined_lines(lines.subrange(p.start_line - 1, p.end_line)))
    &&& p.start_char == line_start(lines, p.start_line - 1)
    &&& p.end_char == line_start(lines, p.end_line)
}

/// Line `n` (numbered from 1) lies within one of the paragraphs `ps`.
pub open spec fn line_covered(ps: Seq<Paragraph>, n: int) -> bool {
    exists|k: int| 0 <= k < ps.len() && (#[trigger] ps[k]).start_line <= n <= ps[k].end_line
}

/// Paragraphs made of lines of `lines`, in order with a line between two of
/// them, the last ending at least two lines before line `bound`.
spec fn found_fits(lines: Seq<Seq<char>>, found: Seq<Paragraph>, bound: int) -> bool {
    &&& forall|k: int| 0 <= k < found.len() ==> paragraph_of_lines(lines, #[trigger] found[k])
    &&& forall|k: int| 0 <= k < found.len() - 1 ==> (#[trigger] found[k]).end_line + 2 <= found[k + 1].start_line
    &&& found.len() > 0 ==> found.last().end_line + 2 <= bound
}

/// The paragraph in progress after `m` lines: lines `start_line` to `m`,
/// none of them blank, joined in `current`.
spec fn run_fits(
    lines: Seq<Seq<char>>,
    current: Seq<char>,
    start_line: int,
    end_line: int,
    start_char: int,
    offset: int,
    m: int,
) -> bool {
    &&& 0 <= m <= lines.len()
    &&& 1 <= start_line <= m + 1
    &&& offset == line_start(lines, m)
    &&& start_char == line_start(lines, start_line - 1)
    &&& lines_nonblank(lines, start_line, m)
    &&& current == joined_lines(lines.subrange(start_line - 1, m))
    &&& start_line <= m ==> end_line == m
}

/// Every non-blank line up to `m` lies before `start_line` in a paragraph
/// of `found`, or from `start_line` on.
spec fn covered_upto(lines: Seq<Seq<char>>, found: Seq<Paragraph>, start_line: int, m: int) -> bool {
    forall|n: int| 1 <= n <= m && !blank_line(#[trigger] lines[n - 1]) ==> n >= start_line || line_covered(found, n)
}

/// What holds of the scan once the first `m` lines are read.
spec fn scan_fits(lines: Seq<Seq<char>>, st: ScanState, m: int) -> bool {
    &&& run_fits(lines, st.current, st.start_line, st.end_line, st.start_char, st.offset, m)
    &&& found_fits(lines, st.found, st.start_line)
    &&& covered_upto(lines, st.found, st.start_line, m)
}

/// Lines joined by `\n` begin with the first line.
proof fn lemma_joined_lines_prefix(ls: Seq<Seq<char>>)
    requires
        ls.len() > 0,
    ensures
        forall|i: int| 0 <= i < ls[0].len() ==> #[trigger] joined_lines(ls)[i] == ls[0][i],
    decreases ls.len(),
{
    if ls.len() > 1 {
        let front = ls.drop_last();
        lemma_joined_lines_prefix(front);
        lemma_joined_lines_len(front);
        assert(front[0] == ls[0]);
        let j = joined_lines(front);
        assert forall|i: int| 0 <= i < ls[0].len() implies #[trigger] joined_lines(ls)[i] == ls[0][i] by {
            assert(joined_lines(ls) == j + "\n"@ + ls.last());
            assert((j + "\n"@ + ls.last())[i] == j[i]);
        }
    }
}

/// Lines joined by `\n` are not blank when the first line is not.
proof fn lemma_joined_lines_nonblank(ls: Seq<Seq<char>>)
    requires
        ls.len() > 0,
        !blank_line(ls[0]),
    ensures
        !blank_line(joined_lines(ls)),
{
    lemma_joined_lines_prefix(ls);
    lemma_joined_lines_len(ls);
    crate::text::lemma_trimmed_empty(ls[0]);
    crate::text::lemma_trimmed_empty(joined_lines(ls));
    let i = choose|i: int| 0 <= i < ls[0].len() && !crate::text::char_is_whitespace(#[trigger] ls[0][i]);
    assert(joined_lines(ls)[i] == ls[0][i]);
}

proof fn lemma_joined_lines_len(ls: Seq<Seq<char>>)
    requires
        ls.len() > 0,
    ensures
        joined_lines(ls).len() >= ls[0].len(),
    decreases ls.len(),
{
    if ls.len() > 1 {
        lemma_joined_lines_len(ls.drop_last());
    }
}

proof fn lemma_nonblank_not_empty(line: Seq<char>)
    requires
        !blank_line(line),
    ensures
        line.len() > 0,
{
    if line.len() == 0 {
        assert(leading_ws(line) == 0);
        assert(trimmed(line) =~= Seq::<char>::empty());
    }
}

/// Closing the paragraph in progress keeps the paragraphs well made and
/// covers every non-blank line read so far.
proof fn lemma_close_run(
    lines: Seq<Seq<char>>,
    found: Seq<Paragraph>,
    current: Seq<char>,
    start_line: int,
    end_line: int,
    start_char: int,
    offset: int,
    m: int,
)
    requires
        run_fits(lines, current, start_line, end_line, start_char, offset, m),
        found_fits(lines, found, start_line),
        covered_upto(lines, found, start_line, m),
    ensures
        found_fits(lines, close_paragraph(found, current, start_line, end_line, start_char, offset), m + 2),
        covered_upto(lines, close_paragraph(found, current, start_line, end_line, start_char, offset), m + 1, m),
{
    let run = lines.subrange(start_line - 1, m);
    let closed = close_paragraph(found, current, start_line, end_line, start_char, offset);
    if start_line <= m {
        assert(run[0] == lines[start_line - 1]);
        lemma_joined_lines_nonblank(run);
        let p = closed.last();
        assert(p.start_line == start_line && p.end_line == m);
        assert(paragraph_of_lines(lines, p));
        assert forall|k: int| 0 <= k < closed.len() implies paragraph_of_lines(lines, #[trigger] closed[k]) by {
            if k < found.len() {
                assert(closed[k] == found[k]);
            }
        }
        assert forall|k: int| 0 <= k < closed.len() - 1 implies (#[trigger] closed[k]).end_line + 2 <= closed[k + 1].start_line by {
            assert(closed[k] == found[k]);
            if k + 1 < found.len() {
                assert(closed[k + 1] == found[k + 1]);
            }
        }
        assert forall|n: int| 1 <= n <= m && !blank_line(#[trigger] lines[n - 1]) implies n >= m + 1 || line_covered(closed, n) by {
            if n < start_line {
                let k = choose|k: int| 0 <= k < found.len() && (#[trigger] found[k]).start_line <= n <= found[k].end_line;
                assert(closed[k] == found[k]);
            } else {
                assert(closed.last().start_line <= n <= closed.last().end_line);
            }
        }
    } else {
        assert(run =~= Seq::<Seq<char>>::empty());
        assert(closed == found);
    }
}

proof fn lemma_scan_step(lines: Seq<Seq<char>>, st: ScanState, m: int)
    requires
        scan_fits(lines, st, m),
        m < lines.len(),
    ensures
        scan_fits(lines, scan_line(st, lines[m], m + 1), m + 1),
{
    let line = lines[m];
    let next = scan_line(st, line, m + 1);
    let run = lines.subrange(st.start_line - 1, m);
    assert(line_start(lines, m + 1) == line_start(lines, m) + line.len() + 1);
    if blank_line(line) {
        lemma_close_run(lines, st.found, st.current, st.start_line, st.end_line, st.start_char, st.offset, m);
        assert(lines.subrange(next.start_line - 1, m + 1) =~= Seq::<Seq<char>>::empty());
        assert(run_fits(lines, next.current, next.start_line, next.end_line, next.start_char, next.offset, m + 1));
    } else {
        let run2 = lines.subrange(st.start_line - 1, m + 1);
        if st.start_line <= m {
            assert(run.len() > 0);
            assert(run[0] == lines[st.start_line - 1]);
            lemma_nonblank_not_empty(run[0]);
            lemma_joined_lines_len(run);
            assert(run2.drop_last() =~= run);
            assert(run2.last() == line);
        } else {
            assert(run =~= Seq::<Seq<char>>::empty());
            assert(run2 =~= seq![line]);
        }
        assert(run_fits(lines, next.current, next.start_line, next.end_line, next.start_char, next.offset, m + 1));
    }
}

proof fn lemma_scan_rest(lines: Seq<Seq<char>>, st: ScanState, m: int)
    requires
        scan_fits(lines, st, m),
    ensures
        scan_fits(lines, scan_lines(st, lines.skip(m), m + 1), lines.len() as int),
    decreases lines.len() - m,
{
    if m < lines.len() {
        let rest = lines.skip(m);
        assert(rest[0] == lines[m]);
        assert(rest.drop_first() =~= lines.skip(m + 1));
        lemma_scan_step(lines, st, m);
        lemma_scan_rest(lines, scan_line(st, lines[m], m + 1), m + 1);
    } else {
        assert(lines.skip(m) =~= Seq::<Seq<char>>::empty());
    }
}

/// Paragraphs are the runs of non-blank lines: each is made of existing
/// lines, none of them blank, its text is those lines joined by `\n` and
/// trimmed, and its characters run from the start of its first line to past
/// the end of its last (one separator counted per line); they come in the order of the text with at least one line
/// between two of them, so a blank line always ends a paragraph; and every
/// non-blank line lies in one of them.
pub proof fn lemma_paragraphs_are_runs_of_lines(text: Seq<char>)
    ensures
        forall|k: int| 0 <= k < paragraphs(text).len() ==> paragraph_of_lines(text_lines(text), #[trigger] paragraphs(text)[k]),
        forall|k: int|
            0 <= k < paragraphs(text).len() - 1 ==> (#[trigger] paragraphs(text)[k]).end_line + 2 <= paragraphs(
                text,
            )[k + 1].start_line,
        forall|n: int|
            1 <= n <= text_lines(text).len() && !blank_line(#[trigger] text_lines(text)[n - 1]) ==> line_covered(
                paragraphs(text),
                n,
            ),
{
    let lines = text_lines(text);
    assert(lines.subrange(0, 0) =~= Seq::<Seq<char>>::empty());
    assert(scan_fits(lines, scan_start(), 0));
    assert(lines.skip(0) =~= lines);
    lemma_scan_rest(lines, scan_start(), 0);
    let st = scan_lines(scan_start(), lines, 1);
    let n = lines.len() as int;
    let last = if st.end_line >= st.start_line { st.end_line } else { st.start_line };
    lemma_close_run(lines, st.found, st.current, st.start_line, last, st.start_char, st.offset, n);
}

/// Chunk `k` of a version, made from paragraph `p`.
pub open spec fn chunk_from(c: ChunkV, p: Paragraph, k: int, scope: TenantScope, source_version_id: u128) -> bool {
    &&& c.operator_id == scope.operator_id
    &&& c.tenant_id == scope.tenant_id
    &&& Some(c.project_id) == scope.project_id
    &&& c.source_version_id == source_version_id
    &&& c.ordinal == k
    &&& c.kind == ChunkKind::Paragraph
    &&& c.text == p.text
    &&& c.text_hash == sha256_hex_text(utf8(p.text))
    &&& c.locator == LocatorV::Text {
        start_line: p.start_line as u32,
        end_line: p.end_line as u32,
        start_char: p.start_char as u32,
        end_char: p.end_char as u32,
    }
    &&& c.product_ids.len() == 0
    &&& c.market is None
    &&& c.language is None
    &&& c.extraction_method == "deterministic_paragraph_v1"@
    &&& c.confidence_milli == 1000
}

/// The chunks of a text are its paragraphs, in order.
pub open spec fn chunks_of(cs: Seq<ChunkV>, text: Seq<char>, scope: TenantScope, source_version_id: u128) -> bool {
    let ps = paragraphs(text);
    &&& cs.len() == ps.len()
    &&& forall|k: int| 0 <= k < cs.len() ==> chunk_from(#[trigger] cs[k], ps[k], k, scope, source_version_id)
}

/// The chunks of a text split it at blank lines: chunk `k` has ordinal
/// `k` and names lines `first` to `last`, none of them blank, its text is
/// those lines joined by `\n` and trimmed, and its character range runs from
/// the start of line `first` to past the end of line `last`; chunks come in the order of
/// the text with at least one line between two of them; and every
/// non-blank line lies within some chunk's lines.
/// Chunk `k` carries paragraph `k`'s ordinal, text and line numbers.
proof fn lemma_chunk_carries_paragraph(cs: Seq<ChunkV>, text: Seq<char>, scope: TenantScope, source_version_id: u128, k: int)
    requires
        chunks_of(cs, text, scope, source_version_id),
        0 <= k < cs.len(),
    ensures
        cs[k].ordinal == k,
        cs[k].text == paragraphs(text)[k].text,
        cs[k].locator matches LocatorV::Text { start_line: first, end_line: last, start_char: from, end_char: to } && first
            == paragraphs(text)[k].start_line as u32 && last == paragraphs(text)[k].end_line as u32 && from == paragraphs(
            text,
        )[k].start_char as u32 && to == paragraphs(text)[k].end_char as u32,
{
    assert(chunk_from(cs[k], paragraphs(text)[k], k, scope, source_version_id));
}

#[verifier::rlimit(100)]
pub proof fn lemma_chunks_split_at_blank_lines(cs: Seq<ChunkV>, text: Seq<char>, scope: TenantScope, source_version_id: u128)
    requires
        chunks_of(cs, text, scope, source_version_id),
        text.len() < 0xFFFF_FFFD,
    ensures
        forall|k: int|
            0 <= k < cs.len() ==> (#[trigger] cs[k]).ordinal == k && (cs[k].locator matches LocatorV::Text {
                start_line: first,
                end_line: last,
                start_char: from,
                end_char: to,
            } && 1 <= first <= last <= text_lines(text).len() && lines_nonblank(text_lines(text), first as int, last as int)
                && cs[k].text == trimmed(joined_lines(text_lines(text).subrange(first - 1, last as int))) && from == line_start(
                text_lines(text),
                first - 1,
            ) as u32 && to == line_start(text_lines(text), last as int) as u32),
        forall|k: int|
            0 <= k < cs.len() - 1 ==> ((#[trigger] cs[k]).locator matches LocatorV::Text { end_line: last, .. } && cs[k
                + 1].locator matches LocatorV::Text { start_line: first, .. } && last + 2 <= first),
        forall|n: int|
            1 <= n <= text_lines(text).len() && !blank_line(#[trigger] text_lines(text)[n - 1]) ==> exists|k: int|
                0 <= k < cs.len() && ((#[trigger] cs[k]).locator matches LocatorV::Text { start_line: first, end_line: last, .. }
                    && first <= n <= last),
{
    let ps = paragraphs(text);
    lemma_paragraphs_are_runs_of_lines(text);
    lemma_lines_width(text);
    assert forall|k: int| 0 <= k < cs.len() - 1 implies ((#[trigger] cs[k]).locator matches LocatorV::Text { end_line: last, .. }
        && cs[k + 1].locator matches LocatorV::Text { start_line: first, .. } && last + 2 <= first) by {
        lemma_chunk_carries_paragraph(cs, text, scope, source_version_id, k);
        lemma_chunk_carries_paragraph(cs, text, scope, source_version_id, k + 1);
        assert(paragraph_of_lines(text_lines(text), ps[k]));
        assert(paragraph_of_lines(text_lines(text), ps[k + 1]));
    }
    assert forall|n: int| 1 <= n <= text_lines(text).len() && !blank_line(#[trigger] text_lines(text)[n - 1]) implies exists|k: int|
        0 <= k < cs.len() && ((#[trigger] cs[k]).locator matches LocatorV::Text { start_line: first, end_line: last, .. }
            && first <= n <= last) by {
        assert(line_covered(ps, n));
        let k = choose|k: int| 0 <= k < ps.len() && (#[trigger] ps[k]).start_line <= n <= ps[k].end_line;
        lemma_chunk_carries_paragraph(cs, text, scope, source_version_id, k);
        assert(paragraph_of_lines(text_lines(text), ps[k]));
    }
    assert forall|k: int| 0 <= k < cs.len() implies (#[trigger] cs[k]).ordinal == k && (cs[k].locator matches LocatorV::Text {
        start_line: first,
        end_line: last,
        start_char: from,
        end_char: to,
    } && 1 <= first <= last <= text_lines(text).len() && lines_nonblank(text_lines(text), first as int, last as int)
        && cs[k].text == trimmed(joined_lines(text_lines(text).subrange(first - 1, last as int))) && from == line_start(
        text_lines(text),
        first - 1,
    ) as u32 && to == line_start(text_lines(text), last as int) as u32) by {
        lemma_chunk_carries_paragraph(cs, text, scope, source_version_id, k);
        assert(paragraph_of_lines(text_lines(text), ps[k]));
    }
}

pub open spec fn chunk_views(v: Seq<Chunk>) -> Seq<ChunkV> {
    v.map_values(|c: Chunk| c@)
}

fn close_chunk(
    chunks: &mut Vec<Chunk>,
    current: &String,
    scope: &TenantScope,
    source_version_id: u128,
    start_line: u32,
    end_line: u32,
    start_char: u32,
    end_char: u32,
    Ghost(found): Ghost<Seq<Paragraph>>,
)
    requires
        scope.project_id is Some,
        old(chunks)@.len() == found.len(),
        old(chunks)@.len() < 0x7fff_ffff,
        forall|k: int| 0 <= k < found.len() ==> chunk_from(#[trigger] chunk_views(old(chunks)@)[k], found[k], k, *scope, source_version_id),
    ensures
        ({
            let closed = close_paragraph(found, current@, start_line as int, end_line as int, start_char as int, end_char as int);
            &&& final(chunks)@.len() == closed.len()
            &&& forall|k: int| 0 <= k < closed.len() ==> chunk_from(#[trigger] chunk_views(final(chunks)@)[k], closed[k], k, *scope, source_version_id)
        }),
{
    let text = trim(current.as_str());
    if text.unicode_len() == 0 {
        return;
    }
    let ordinal = chunks.len() as i32;
    let chunk = Chunk {
        chunk_id: new_uuid(),
        operator_id: scope.operator_id,
        tenant_id: scope.tenant_id,
        project_id: scope.project_id.unwrap(),
        source_version_id,
        ordinal,
        kind: ChunkKind::Paragraph,
        text: text.to_owned(),
        text_hash: sha256_hex_str(text),
        locator: ChunkLocator::Text { start_line, end_line, start_char, end_char },
        product_ids: Vec::new(),
        market: None,
        language: None,
        extraction_method: String::from_str("deterministic_paragraph_v1"),
        confidence_milli: 1000,
    };
    proof {
        reveal_strlit("deterministic_paragraph_v1");
    }
    let ghost before = chunks@;
    let ghost cv = chunk@;
    chunks.push(chunk);
    proof {
        let closed = close_paragraph(found, current@, start_line as int, end_line as int, start_char as int, end_char as int);
        assert(chunk_views(chunks@) =~= chunk_views(before).push(cv));
        assert forall|k: int| 0 <= k < closed.len() implies chunk_from(#[trigger] chunk_views(chunks@)[k], closed[k], k, *scope, source_version_id) by {
            if k < found.len() {
                assert(chunk_views(chunks@)[k] == chunk_views(before)[k]);
            }
        }
    }
}

/// Splits a text into paragraph chunks of one source version.
#[verifier::rlimit(40)]
pub fn deterministic_chunks(scope: &TenantScope, source_version_id: u128, text: &str) -> (chunks: Vec<Chunk>)
    requires
        scope.project_id is Some,
        text@.len() < 0xFFFF_FFFD,
    ensures
        chunks_of(chunk_views(chunks@), text@, *scope, source_version_id),
        chunks@.len() <= text@.len() + 2,
{
    let lines = split_lines(text);
    let ghost ls = strs(lines@);
    proof {
        lemma_lines_width(text@);
    }
    let mut chunks: Vec<Chunk> = Vec::new();
    let mut start_line: u32 = 1;
    let mut start_char: u32 = 0;
    let mut current = String::new();
    let mut end_line: u32 = 0;
    let mut offset: u32 = 0;
    let ghost mut st = scan_start();
    let mut i: usize = 0;
    assert(ls.skip(0) =~= ls);
    while i < lines.len()
        invariant
            scope.project_id is Some,
            text@.len() < 0xFFFF_FFFD,
            ls == strs(lines@),
            ls == text_lines(text@),
            lines_width(ls) <= text@.len() + 1,
            ls.len() <= text@.len() + 1,
            i <= lines.len(),
            scan_lines(scan_start(), ls, 1) == scan_lines(st, ls.skip(i as int), i + 1),
            st.offset + lines_width(ls.skip(i as int)) == lines_width(ls),
            st.start_line <= i + 1,
            st.end_line <= i,
            st.start_char <= st.offset,
            st.found.len() <= i,
            3 * st.found.len() <= st.start_char,
            st.current.len() > 0 ==> st.start_char + 2 <= st.offset,
            start_line == st.start_line,
            start_char == st.start_char,
            current@ == st.current,
            end_line == st.end_line,
            offset == st.offset,
            chunks@.len() == st.found.len(),
            forall|k: int| 0 <= k < st.found.len() ==> chunk_from(#[trigger] chunk_views(chunks@)[k], st.found[k], k, *scope, source_version_id),
        decreases lines.len() - i,
    {
        let line = &lines[i];
        let ghost lv = ls[i as int];
        assert(lv == line@);
        proof {
            let rest = ls.skip(i as int);
            assert(rest[0] == lv);
            assert(rest.drop_first() =~= ls.skip((i + 1) as int));
            lemma_lines_width_nonneg(ls.skip((i + 1) as int));
        }
        let n = line.as_str().unicode_len();
        assert(n == lv.len());
        assert(lines_width(ls.skip((i + 1) as int)) >= 0);
        assert(lines_width(ls.skip(i as int)) == lv.len() + 1 + lines_width(ls.skip((i + 1) as int)));
        assert(offset + lines_width(ls.skip(i as int)) == lines_width(ls));
        assert(n + 1 + offset <= lines_width(ls));
        let width = n as u32;
        let number = (i + 1) as u32;
        proof {
            if lv.len() == 0 {
                assert(leading_ws(lv) == 0);
                assert(trimmed(lv) =~= Seq::<char>::empty());
            }
        }
        if trim(line.as_str()).unicode_len() == 0 {
            close_chunk(&mut chunks, &current, scope, source_version_id, start_line, end_line, start_char, offset, Ghost(st.found));
            current = String::new();
            start_line = number + 1;
            start_char = offset + width + 1;
        } else {
            if current.as_str().unicode_len() > 0 {
                current = current.concat("\n");
            }
            current = current.concat(line.as_str());
            end_line = number;
        }
        offset = offset + width + 1;
        proof {
            st = scan_line(st, lv, i + 1);
            assert(current@ =~= st.current);
        }
        i += 1;
    }
    proof {
        assert(ls.skip(i as int) =~= Seq::<Seq<char>>::empty());
    }
    let last = if end_line >= start_line { end_line } else { start_line };
    close_chunk(&mut chunks, &current, scope, source_version_id, start_line, last, start_char, offset, Ghost(st.found));
    chunks
}

} // verus!
