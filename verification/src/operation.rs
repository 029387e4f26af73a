//! Asynchronous operation handles returned by side-effecting commands.

use vstd::prelude::*;
use vstd::string::StringExecFns;
use crate::clock::utc_now_micros;
use crate::error::AppError;
use crate::ids::{new_uuid, TenantScope};
use crate::project::ProjectStartAcceptance;

verus! {

#[derive(Debug, Clone, Copy, PartialEq, Eq, Structural)]
pub enum OperationStatus {
    Queued,
    Running,
    Succeeded,
    Failed,
}

/// What a finished operation produced; the HTTP layer writes it as JSON.
#[derive(Debug)]
pub enum OperationResult {
    /// A knowledge import: the source, its version and the release it made.
    KnowledgeImport { source_id: u128, source_version_id: u128, knowledge_release_id: u128 },
    /// A completed upload: the session, the stored object, and the source
    /// and release it produced, if any.
    UploadCompletion {
        upload_session_id: u128,
        object_id: u128,
        source_id: Option<u128>,
        knowledge_release_id: Option<u128>,
    },
    /// An accepted project start.
    ProjectStart(ProjectStartAcceptance),
}

impl OperationResult {
    pub fn copy(&self) -> (r: Self)
        ensures
            r == *self,
    {
        match self {
            OperationResult::KnowledgeImport { source_id, source_version_id, knowledge_release_id } => {
                OperationResult::KnowledgeImport {
                    source_id: *source_id,
                    source_version_id: *source_version_id,
                    knowledge_release_id: *knowledge_release_id,
                }
            },
            OperationResult::UploadCompletion { upload_session_id, object_id, source_id, knowledge_release_id } => {
                OperationResult::UploadCompletion {
                    upload_session_id: *upload_session_id,
                    object_id: *object_id,
                    source_id: *source_id,
                    knowledge_release_id: *knowledge_release_id,
                }
            },
            OperationResult::ProjectStart(a) => OperationResult::ProjectStart(a.copy()),
        }
    }
}

/// An asynchronous operation handle.
#[derive(Debug)]
pub struct Operation {
    pub id: u128,
    pub kind: String,
    pub status: OperationStatus,
    pub scope: TenantScope,
    pub result: Option<OperationResult>,
    pub error: Option<AppError>,
    /// Microseconds since the Unix epoch.
    pub created_at: i64,
    pub updated_at: i64,
}

impl Operation {
    /// A new queued operation of `kind` in `scope`, with a fresh id.
    pub fn queued(kind: String, scope: TenantScope) -> (op: Self)
        ensures
            op.kind == kind,
            op.status == OperationStatus::Queued,
            op.scope == scope,
            op.result is None,
            op.error is None,
            op.created_at == op.updated_at,
    {
        let now = utc_now_micros();
        Operation {
            id: new_uuid(),
            kind,
            status: OperationStatus::Queued,
            scope,
            result: None,
            error: None,
            created_at: now,
            updated_at: now,
        }
    }

    pub fn copy(&self) -> (r: Self)
        ensures
            r == *self,
    {
        Operation {
            id: self.id,
            kind: self.kind.clone(),
            status: self.status,
            scope: self.scope,
            result: match &self.result {
                Some(v) => Some(v.copy()),
                None => None,
            },
            error: match &self.error {
                Some(e) => Some(e.copy()),
                None => None,
            },
            created_at: self.created_at,
            updated_at: self.updated_at,
        }
    }
}

} // verus!
