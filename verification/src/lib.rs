//! Verified core of the Memeloop GEO platform: tenant scopes, project setup
//! validation, the agent conversation store, the knowledge import store and
//! the request-level rules of the HTTP boundary.

pub mod error;
pub mod ids;
pub mod text;
pub mod digest;
pub mod rules;
pub mod clock;
pub mod project;
pub mod schedule;
pub mod project_store;
pub mod project_patch;
pub mod agent;
pub mod sorting;
pub mod agent_store;
pub mod agent_http;
pub mod operation;
pub mod knowledge;
pub mod knowledge_store;
pub mod idempotency;
pub mod auth;
pub mod context;
pub mod login;
pub mod api;
pub mod config;
pub mod runtime;

pub use error::{AppError, ErrorCode, ErrorDetails};
pub use ids::{
    AttachmentId, CheckpointId, ConversationEventId, ConversationId, MessageId, OperatorId, ProjectId,
    RunId, SessionId, TenantId, TenantScope, TenantScopeId, ToolCallLedgerId, TurnId, UserId,
};
