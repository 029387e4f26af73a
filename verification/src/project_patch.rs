//! The body of a project PATCH: each setting may be sent at the top level or
//! inside `settings`, the top level winning, and the three clearable text
//! fields distinguish "absent" from "explicitly null".

use vstd::prelude::*;
use crate::error::{err, AppError, ErrorCode, ErrorV};
use crate::project::{
    DistributionScope, DocumentScope, InitialSource, ProjectPatch, ReportSchedule, ResourceMode,
};

verus! {

/// The settings block of a PATCH body.  `Some(None)` on a clearable field
/// means the client sent an explicit null.
#[derive(Debug)]
pub struct ProjectSettingsPatchRequest {
    pub brand_name: Option<String>,
    pub product_name: Option<Option<String>>,
    pub market: Option<String>,
    pub language: Option<String>,
    pub target_audience: Option<Option<String>>,
    pub competitors: Option<Vec<String>>,
    pub initial_sources: Option<Vec<InitialSource>>,
    pub resource_mode: Option<ResourceMode>,
    pub budget_currency: Option<String>,
    pub monthly_budget_minor: Option<i64>,
    pub monitoring_reserve_percent: Option<u8>,
    pub report_timezone: Option<String>,
    pub report_schedule: Option<ReportSchedule>,
    pub objective: Option<Option<String>>,
    pub document_scope: Option<DocumentScope>,
    pub distribution_scope: Option<DistributionScope>,
}

/// A PATCH body.  `revision`, when sent, must equal the If-Match revision.
#[derive(Debug)]
pub struct ProjectPatchRequest {
    pub revision: Option<i64>,
    pub slug: Option<String>,
    pub display_name: Option<String>,
    pub brand_name: Option<String>,
    pub product_name: Option<Option<String>>,
    pub market: Option<String>,
    pub language: Option<String>,
    pub target_audience: Option<Option<String>>,
    pub competitors: Option<Vec<String>>,
    pub initial_sources: Option<Vec<InitialSource>>,
    pub resource_mode: Option<ResourceMode>,
    pub budget_currency: Option<String>,
    pub monthly_budget_minor: Option<i64>,
    pub monitoring_reserve_percent: Option<u8>,
    pub report_timezone: Option<String>,
    pub report_schedule: Option<ReportSchedule>,
    pub objective: Option<Option<String>>,
    pub document_scope: Option<DocumentScope>,
    pub distribution_scope: Option<DistributionScope>,
    pub settings: Option<ProjectSettingsPatchRequest>,
}

/// The first of two optional values that is present.
pub open spec fn either<T>(first: Option<T>, second: Option<T>) -> Option<T> {
    match first {
        Some(v) => Some(v),
        None => second,
    }
}

/// The value of a clearable field: present only when a value was sent.
pub open spec fn sent_value<T>(field: Option<Option<T>>) -> Option<T> {
    match field {
        Some(Some(v)) => Some(v),
        _ => None,
    }
}

/// Whether a clearable field was sent as an explicit null.
pub open spec fn sent_null<T>(field: Option<Option<T>>) -> bool {
    match field {
        Some(None) => true,
        _ => false,
    }
}

/// A settings block that sends nothing.
pub open spec fn no_settings() -> ProjectSettingsPatchRequest {
    ProjectSettingsPatchRequest {
        brand_name: None,
        product_name: None,
        market: None,
        language: None,
        target_audience: None,
        competitors: None,
        initial_sources: None,
        resource_mode: None,
        budget_currency: None,
        monthly_budget_minor: None,
        monitoring_reserve_percent: None,
        report_timezone: None,
        report_schedule: None,
        objective: None,
        document_scope: None,
        distribution_scope: None,
    }
}

pub open spec fn settings_block(s: Option<ProjectSettingsPatchRequest>) -> ProjectSettingsPatchRequest {
    match s {
        Some(block) => block,
        None => no_settings(),
    }
}

/// The domain patch a body asks for: each field from the top level if sent
/// there, else from the settings block; lifecycle status is never patched.
pub open spec fn requested_patch(r: ProjectPatchRequest) -> ProjectPatch {
    let s = settings_block(r.settings);
    let product_name = either(r.product_name, s.product_name);
    let target_audience = either(r.target_audience, s.target_audience);
    let objective = either(r.objective, s.objective);
    ProjectPatch {
        slug: r.slug,
        display_name: r.display_name,
        brand_name: either(r.brand_name, s.brand_name),
        product_name: sent_value(product_name),
        clear_product_name: sent_null(product_name),
        market: either(r.market, s.market),
        language: either(r.language, s.language),
        target_audience: sent_value(target_audience),
        clear_target_audience: sent_null(target_audience),
        competitors: either(r.competitors, s.competitors),
        initial_sources: either(r.initial_sources, s.initial_sources),
        resource_mode: either(r.resource_mode, s.resource_mode),
        budget_currency: either(r.budget_currency, s.budget_currency),
        monthly_budget_minor: either(r.monthly_budget_minor, s.monthly_budget_minor),
        monitoring_reserve_percent: either(r.monitoring_reserve_percent, s.monitoring_reserve_percent),
        report_timezone: either(r.report_timezone, s.report_timezone),
        report_schedule: either(r.report_schedule, s.report_schedule),
        objective: sent_value(objective),
        clear_objective: sent_null(objective),
        document_scope: either(r.document_scope, s.document_scope),
        distribution_scope: either(r.distribution_scope, s.distribution_scope),
        status: None,
    }
}

fn pick<T>(first: Option<T>, second: Option<T>) -> (r: Option<T>)
    ensures
        r == either(first, second),
{
    match first {
        Some(v) => Some(v),
        None => second,
    }
}

fn split_clearable(field: Option<Option<String>>) -> (r: (Option<String>, bool))
    ensures
        r.0 == sent_value(field),
        r.1 == sent_null(field),
{
    match field {
        Some(Some(v)) => (Some(v), false),
        Some(None) => (None, true),
        None => (None, false),
    }
}

impl ProjectSettingsPatchRequest {
    /// A settings block that sends nothing.
    pub fn empty() -> (s: Self)
        ensures
            s == no_settings(),
    {
        ProjectSettingsPatchRequest {
            brand_name: None,
            product_name: None,
            market: None,
            language: None,
            target_audience: None,
            competitors: None,
            initial_sources: None,
            resource_mode: None,
            budget_currency: None,
            monthly_budget_minor: None,
            monitoring_reserve_percent: None,
            report_timezone: None,
            report_schedule: None,
            objective: None,
            document_scope: None,
            distribution_scope: None,
        }
    }
}

impl ProjectPatchRequest {
    /// The echoed revision and the domain patch the body asks for.
    pub fn into_domain(self) -> (r: (Option<i64>, ProjectPatch))
        ensures
            r.0 == self.revision,
            r.1 == requested_patch(self),
    {
        let ghost request = self;
        let s = match self.settings {
            Some(block) => block,
            None => ProjectSettingsPatchRequest::empty(),
        };
        let (product_name, clear_product_name) = split_clearable(pick(self.product_name, s.product_name));
        let (target_audience, clear_target_audience) = split_clearable(pick(self.target_audience, s.target_audience));
        let (objective, clear_objective) = split_clearable(pick(self.objective, s.objective));
        let patch = ProjectPatch {
            slug: self.slug,
            display_name: self.display_name,
            brand_name: pick(self.brand_name, s.brand_name),
            product_name,
            clear_product_name,
            market: pick(self.market, s.market),
            language: pick(self.language, s.language),
            target_audience,
            clear_target_audience,
            competitors: pick(self.competitors, s.competitors),
            initial_sources: pick(self.initial_sources, s.initial_sources),
            resource_mode: pick(self.resource_mode, s.resource_mode),
            budget_currency: pick(self.budget_currency, s.budget_currency),
            monthly_budget_minor: pick(self.monthly_budget_minor, s.monthly_budget_minor),
            monitoring_reserve_percent: pick(self.monitoring_reserve_percent, s.monitoring_reserve_percent),
            report_timezone: pick(self.report_timezone, s.report_timezone),
            report_schedule: pick(self.report_schedule, s.report_schedule),
            objective,
            clear_objective,
            document_scope: pick(self.document_scope, s.document_scope),
            distribution_scope: pick(self.distribution_scope, s.distribution_scope),
            status: None,
        };
        (self.revision, patch)
    }
}

/// A body whose echoed revision differs from If-Match.
pub open spec fn revision_mismatch() -> ErrorV {
    err(ErrorCode::Conflict, "request revision does not match If-Match"@)
}

/// The patch to apply for a body sent with If-Match `expected_revision`: a
/// body revision, when sent, must agree with it.
pub fn patch_command(request: ProjectPatchRequest, expected_revision: i64) -> (r: Result<ProjectPatch, AppError>)
    ensures
        match request.revision {
            Some(b) if b != expected_revision => r matches Err(e) && e@ == revision_mismatch(),
            _ => r == Ok::<ProjectPatch, AppError>(requested_patch(request)),
        },
{
    let (body_revision, patch) = request.into_domain();
    if let Some(b) = body_revision {
        if b != expected_revision {
            return Err(AppError::conflict("request revision does not match If-Match"));
        }
    }
    Ok(patch)
}

} // verus!
