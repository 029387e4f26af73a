//! Project configuration: the draft and start rules of project settings.

use vstd::prelude::*;
use vstd::string::StringExecFns;
use crate::clock::{hh_mm_parse, is_known_timezone, parse_hh_mm, tz_known, utc_now_micros};
use crate::digest::{sha256_hex_str, sha256_hex_text, utf8};
use crate::error::{AppError, ErrorCode, ErrorV, err};
use crate::ids::{uuid_text, uuid_to_string, OperatorId, ProjectId, TenantId, TenantScope};
use crate::rules::{
    i64_to_string, int_text,
    invalid, lemma_map_rule_err_extends, map_rule, maybe_text_result, maybe_text_rule, message2,
    optional_text_rule, strs, text_result, text_rule, texts_result, texts_rule, validate_maybe_text,
    validate_optional_text, validate_text, validate_texts,
};
use crate::text::{opt_text, 
    all_ascii_upper, all_chars, all_hex, ascii_lower, ascii_upper, has_prefix, is_ascii_hex,
    is_ascii_upper, starts_with, str_eq, to_ascii_lowercase, to_ascii_uppercase, trim, trimmed,
};

verus! {

#[derive(Debug, Clone, Copy, PartialEq, Eq, Structural)]
pub enum ProjectStatus {
    Draft,
    Active,
    Paused,
    Archived,
}

pub open spec fn project_status_name(status: ProjectStatus) -> Seq<char> {
    match status {
        ProjectStatus::Draft => "draft"@,
        ProjectStatus::Active => "active"@,
        ProjectStatus::Paused => "paused"@,
        ProjectStatus::Archived => "archived"@,
    }
}

pub open spec fn parse_project_status(value: Seq<char>) -> Option<ProjectStatus> {
    if value == "draft"@ {
        Some(ProjectStatus::Draft)
    } else if value == "active"@ {
        Some(ProjectStatus::Active)
    } else if value == "paused"@ {
        Some(ProjectStatus::Paused)
    } else if value == "archived"@ {
        Some(ProjectStatus::Archived)
    } else {
        None
    }
}

impl ProjectStatus {
    pub fn as_str(self) -> (name: &'static str)
        ensures
            name@ == project_status_name(self),
    {
        match self {
            ProjectStatus::Draft => "draft",
            ProjectStatus::Active => "active",
            ProjectStatus::Paused => "paused",
            ProjectStatus::Archived => "archived",
        }
    }

    /// Reads a status by its wire name.
    pub fn parse(value: &str) -> (r: Result<Self, AppError>)
        ensures
            match r {
                Ok(status) => parse_project_status(value@) == Some(status),
                Err(e) => parse_project_status(value@) is None
                    && e@ == invalid("invalid project status: "@ + value@),
            },
    {
        if str_eq(value, "draft") {
            Ok(ProjectStatus::Draft)
        } else if str_eq(value, "active") {
            Ok(ProjectStatus::Active)
        } else if str_eq(value, "paused") {
            Ok(ProjectStatus::Paused)
        } else if str_eq(value, "archived") {
            Ok(ProjectStatus::Archived)
        } else {
            Err(AppError::with_message(ErrorCode::InvalidRequest, message2("invalid project status: ", value)))
        }
    }
}

/// The wire name and the parser agree: every status reads back as itself.
pub proof fn lemma_project_status_round_trip(status: ProjectStatus)
    ensures
        parse_project_status(project_status_name(status)) == Some(status),
{
    reveal_strlit("draft");
    reveal_strlit("active");
    reveal_strlit("paused");
    reveal_strlit("archived");
    assert("draft"@.len() != "active"@.len());
    assert("draft"@.len() != "paused"@.len());
    assert("active"@[0] != "paused"@[0]);
    assert("archived"@.len() != "draft"@.len());
    assert("archived"@.len() != "active"@.len());
    assert("archived"@.len() != "paused"@.len());
}

#[derive(Debug, Clone, Copy, PartialEq, Eq, Structural)]
pub enum ResourceMode {
    Own,
    Platform,
    Mixed,
}

impl ResourceMode {
    pub fn as_str(self) -> (name: &'static str)
        ensures
            name@ == (match self {
                ResourceMode::Own => "own"@,
                ResourceMode::Platform => "platform"@,
                ResourceMode::Mixed => "mixed"@,
            }),
    {
        match self {
            ResourceMode::Own => "own",
            ResourceMode::Platform => "platform",
            ResourceMode::Mixed => "mixed",
        }
    }
}

#[derive(Debug, Clone, Copy, PartialEq, Eq, Structural)]
pub enum PeriodPolicy {
    PreviousCalendarWeek,
}

#[derive(Debug, Clone, Copy, PartialEq, Eq, Structural)]
pub enum ReportWeekday {
    Monday,
    Tuesday,
    Wednesday,
    Thursday,
    Friday,
    Saturday,
    Sunday,
}

pub open spec fn weekday_index(day: ReportWeekday) -> u32 {
    match day {
        ReportWeekday::Monday => 0,
        ReportWeekday::Tuesday => 1,
        ReportWeekday::Wednesday => 2,
        ReportWeekday::Thursday => 3,
        ReportWeekday::Friday => 4,
        ReportWeekday::Saturday => 5,
        ReportWeekday::Sunday => 6,
    }
}

impl ReportWeekday {
    pub fn num_days_from_monday(self) -> (days: u32)
        ensures
            days == weekday_index(self),
            days < 7,
    {
        match self {
            ReportWeekday::Monday => 0,
            ReportWeekday::Tuesday => 1,
            ReportWeekday::Wednesday => 2,
            ReportWeekday::Thursday => 3,
            ReportWeekday::Friday => 4,
            ReportWeekday::Saturday => 5,
            ReportWeekday::Sunday => 6,
        }
    }
}

#[derive(Debug)]
pub struct ReportSchedule {
    pub report_weekday: ReportWeekday,
    pub report_local_time: String,
    pub cutoff_weekday: ReportWeekday,
    pub cutoff_local_time: String,
    pub period_policy: PeriodPolicy,
}

pub struct ScheduleV {
    pub report_weekday: ReportWeekday,
    pub report_local_time: Seq<char>,
    pub cutoff_weekday: ReportWeekday,
    pub cutoff_local_time: Seq<char>,
    pub period_policy: PeriodPolicy,
}

impl View for ReportSchedule {
    type V = ScheduleV;

    open spec fn view(&self) -> ScheduleV {
        ScheduleV {
            report_weekday: self.report_weekday,
            report_local_time: self.report_local_time@,
            cutoff_weekday: self.cutoff_weekday,
            cutoff_local_time: self.cutoff_local_time@,
            period_policy: self.period_policy,
        }
    }
}

pub fn default_report_weekday() -> (day: ReportWeekday)
    ensures
        day == ReportWeekday::Monday,
{
    ReportWeekday::Monday
}

pub fn default_report_local_time() -> (time: String)
    ensures
        time@ == "09:00"@,
{
    "09:00".to_owned()
}

pub fn default_cutoff_weekday() -> (day: ReportWeekday)
    ensures
        day == ReportWeekday::Monday,
{
    ReportWeekday::Monday
}

pub fn default_cutoff_local_time() -> (time: String)
    ensures
        time@ == "00:00"@,
{
    "00:00".to_owned()
}

impl ReportSchedule {
    /// Monday 09:00 with a Monday 00:00 cutoff over the previous calendar week.
    pub fn default() -> (schedule: Self)
        ensures
            schedule@ == (ScheduleV {
                report_weekday: ReportWeekday::Monday,
                report_local_time: "09:00"@,
                cutoff_weekday: ReportWeekday::Monday,
                cutoff_local_time: "00:00"@,
                period_policy: PeriodPolicy::PreviousCalendarWeek,
            }),
    {
        ReportSchedule {
            report_weekday: default_report_weekday(),
            report_local_time: default_report_local_time(),
            cutoff_weekday: default_cutoff_weekday(),
            cutoff_local_time: default_cutoff_local_time(),
            period_policy: PeriodPolicy::PreviousCalendarWeek,
        }
    }

    pub fn copy(&self) -> (r: Self)
        ensures
            r@ == self@,
    {
        ReportSchedule {
            report_weekday: self.report_weekday,
            report_local_time: self.report_local_time.clone(),
            cutoff_weekday: self.cutoff_weekday,
            cutoff_local_time: self.cutoff_local_time.clone(),
            period_policy: self.period_policy,
        }
    }
}

#[derive(Debug, Clone, Copy, PartialEq, Eq, Structural)]
pub enum QuestionClusterState {
    PendingResolution,
    Resolved,
}

pub fn default_question_cluster_state() -> (state: QuestionClusterState)
    ensures
        state == QuestionClusterState::PendingResolution,
{
    QuestionClusterState::PendingResolution
}

pub fn default_true() -> (value: bool)
    ensures
        value,
{
    true
}

#[derive(Debug)]
pub struct QuestionClusterScope {
    pub key: String,
    pub state: QuestionClusterState,
}

pub struct ClusterV {
    pub key: Seq<char>,
    pub state: QuestionClusterState,
}

impl View for QuestionClusterScope {
    type V = ClusterV;

    open spec fn view(&self) -> ClusterV {
        ClusterV { key: self.key@, state: self.state }
    }
}

pub open spec fn clusters_view(v: Seq<QuestionClusterScope>) -> Seq<ClusterV> {
    v.map_values(|c: QuestionClusterScope| c@)
}

#[derive(Debug)]
pub struct DocumentScope {
    pub all_active_products: bool,
    pub excluded_product_ids: Vec<String>,
    pub markets: Vec<String>,
    pub languages: Vec<String>,
    pub content_types: Vec<String>,
    pub question_clusters: Vec<QuestionClusterScope>,
}

pub struct DocScopeV {
    pub all_active_products: bool,
    pub excluded_product_ids: Seq<Seq<char>>,
    pub markets: Seq<Seq<char>>,
    pub languages: Seq<Seq<char>>,
    pub content_types: Seq<Seq<char>>,
    pub question_clusters: Seq<ClusterV>,
}

impl View for DocumentScope {
    type V = DocScopeV;

    open spec fn view(&self) -> DocScopeV {
        DocScopeV {
            all_active_products: self.all_active_products,
            excluded_product_ids: strs(self.excluded_product_ids@),
            markets: strs(self.markets@),
            languages: strs(self.languages@),
            content_types: strs(self.content_types@),
            question_clusters: clusters_view(self.question_clusters@),
        }
    }
}

impl DocumentScope {
    /// Every active product, with no market, language, type or cluster chosen.
    pub fn default() -> (scope: Self)
        ensures
            scope@ == (DocScopeV {
                all_active_products: true,
                excluded_product_ids: Seq::empty(),
                markets: Seq::empty(),
                languages: Seq::empty(),
                content_types: Seq::empty(),
                question_clusters: Seq::empty(),
            }),
    {
        let scope = DocumentScope {
            all_active_products: true,
            excluded_product_ids: Vec::new(),
            markets: Vec::new(),
            languages: Vec::new(),
            content_types: Vec::new(),
            question_clusters: Vec::new(),
        };
        assert(scope@.excluded_product_ids =~= Seq::empty());
        assert(scope@.markets =~= Seq::empty());
        assert(scope@.languages =~= Seq::empty());
        assert(scope@.content_types =~= Seq::empty());
        assert(scope@.question_clusters =~= Seq::empty());
        scope
    }
}

#[derive(Debug, Clone, Copy, PartialEq, Eq, Structural)]
pub enum DistributionScopeMode {
    AllEligible,
    Explicit,
}

#[derive(Debug, Clone, Copy, PartialEq, Eq, Structural)]
pub enum ReplicationPolicy {
    OneAccountPerPlatform,
}

#[derive(Debug)]
pub struct DistributionScope {
    pub mode: DistributionScopeMode,
    pub included_platform_ids: Vec<String>,
    pub excluded_platform_ids: Vec<String>,
    pub resource_pool_ids: Vec<String>,
    pub replication_policy: ReplicationPolicy,
}

pub struct DistScopeV {
    pub mode: DistributionScopeMode,
    pub included_platform_ids: Seq<Seq<char>>,
    pub excluded_platform_ids: Seq<Seq<char>>,
    pub resource_pool_ids: Seq<Seq<char>>,
    pub replication_policy: ReplicationPolicy,
}

impl View for DistributionScope {
    type V = DistScopeV;

    open spec fn view(&self) -> DistScopeV {
        DistScopeV {
            mode: self.mode,
            included_platform_ids: strs(self.included_platform_ids@),
            excluded_platform_ids: strs(self.excluded_platform_ids@),
            resource_pool_ids: strs(self.resource_pool_ids@),
            replication_policy: self.replication_policy,
        }
    }
}

impl DistributionScope {
    /// Every eligible platform, one account per platform.
    pub fn default() -> (scope: Self)
        ensures
            scope@ == (DistScopeV {
                mode: DistributionScopeMode::AllEligible,
                included_platform_ids: Seq::empty(),
                excluded_platform_ids: Seq::empty(),
                resource_pool_ids: Seq::empty(),
                replication_policy: ReplicationPolicy::OneAccountPerPlatform,
            }),
    {
        let scope = DistributionScope {
            mode: DistributionScopeMode::AllEligible,
            included_platform_ids: Vec::new(),
            excluded_platform_ids: Vec::new(),
            resource_pool_ids: Vec::new(),
            replication_policy: ReplicationPolicy::OneAccountPerPlatform,
        };
        assert(scope@.included_platform_ids =~= Seq::empty());
        assert(scope@.excluded_platform_ids =~= Seq::empty());
        assert(scope@.resource_pool_ids =~= Seq::empty());
        scope
    }
}

#[derive(Debug, Clone, Copy, PartialEq, Eq, Structural)]
pub enum InitialSourceKind {
    Url,
    Text,
    Object,
    KnowledgeCollection,
}

#[derive(Debug, Clone, Copy, PartialEq, Eq, Structural)]
pub enum InitialSourceVisibility {
    Public,
    Internal,
}

#[derive(Debug)]
pub struct InitialSource {
    pub kind: InitialSourceKind,
    pub value: String,
    pub visibility: InitialSourceVisibility,
    pub version_ref: Option<String>,
    pub content_hash: Option<String>,
}

pub struct SourceV {
    pub kind: InitialSourceKind,
    pub value: Seq<char>,
    pub visibility: InitialSourceVisibility,
    pub version_ref: Option<Seq<char>>,
    pub content_hash: Option<Seq<char>>,
}

impl View for InitialSource {
    type V = SourceV;

    open spec fn view(&self) -> SourceV {
        SourceV {
            kind: self.kind,
            value: self.value@,
            visibility: self.visibility,
            version_ref: opt_text(self.version_ref),
            content_hash: opt_text(self.content_hash),
        }
    }
}

pub open spec fn sources_view(v: Seq<InitialSource>) -> Seq<SourceV> {
    v.map_values(|s: InitialSource| s@)
}

impl InitialSource {
    pub fn copy(&self) -> (r: Self)
        ensures
            r@ == self@,
    {
        InitialSource {
            kind: self.kind,
            value: self.value.clone(),
            visibility: self.visibility,
            version_ref: match &self.version_ref {
                Some(v) => Some(v.clone()),
                None => None,
            },
            content_hash: match &self.content_hash {
                Some(v) => Some(v.clone()),
                None => None,
            },
        }
    }
}


// ---------------------------------------------------------------------------
// Draft and start rules.
// ---------------------------------------------------------------------------

pub open spec fn time_rule(field: Seq<char>, value: Seq<char>) -> Result<Seq<char>, ErrorV> {
    let t = trimmed(value);
    if hh_mm_parse(t) is Some {
        Ok(t)
    } else {
        Err(invalid(field + " must be HH:MM"@))
    }
}

pub open spec fn schedule_rule(s: ScheduleV) -> Result<ScheduleV, ErrorV> {
    match time_rule("report_schedule.report_local_time"@, s.report_local_time) {
        Err(e) => Err(e),
        Ok(r) => match time_rule("report_schedule.cutoff_local_time"@, s.cutoff_local_time) {
            Err(e) => Err(e),
            Ok(c) => Ok(ScheduleV { report_local_time: r, cutoff_local_time: c, ..s }),
        },
    }
}

pub open spec fn scope_values_rule(field: Seq<char>, values: Seq<Seq<char>>, max: nat) -> Result<Seq<Seq<char>>, ErrorV> {
    if values.len() > max {
        Err(invalid(field + " has too many entries"@))
    } else {
        texts_rule(field, values, 200)
    }
}

pub open spec fn cluster_rule(c: ClusterV) -> Result<ClusterV, ErrorV> {
    match text_rule("document_scope.question_clusters.key"@, c.key, 200) {
        Ok(k) => Ok(ClusterV { key: k, state: c.state }),
        Err(e) => Err(e),
    }
}

pub open spec fn doc_scope_rule(d: DocScopeV) -> Result<DocScopeV, ErrorV> {
    if d.question_clusters.len() > 100 {
        Err(invalid("document_scope.question_clusters has too many entries"@))
    } else {
        match map_rule(d.question_clusters, |c: ClusterV| cluster_rule(c)) {
            Err(e) => Err(e),
            Ok(cs) => match scope_values_rule("document_scope.excluded_product_ids"@, d.excluded_product_ids, 10000) {
                Err(e) => Err(e),
                Ok(ex) => match scope_values_rule("document_scope.markets"@, d.markets, 100) {
                    Err(e) => Err(e),
                    Ok(m) => match scope_values_rule("document_scope.languages"@, d.languages, 100) {
                        Err(e) => Err(e),
                        Ok(l) => match scope_values_rule("document_scope.content_types"@, d.content_types, 100) {
                            Err(e) => Err(e),
                            Ok(ct) => Ok(DocScopeV {
                                all_active_products: d.all_active_products,
                                excluded_product_ids: ex,
                                markets: m,
                                languages: l,
                                content_types: ct,
                                question_clusters: cs,
                            }),
                        },
                    },
                },
            },
        }
    }
}

pub open spec fn dist_scope_rule(d: DistScopeV) -> Result<DistScopeV, ErrorV> {
    match scope_values_rule("distribution_scope.included_platform_ids"@, d.included_platform_ids, 1000) {
        Err(e) => Err(e),
        Ok(inc) => match scope_values_rule("distribution_scope.excluded_platform_ids"@, d.excluded_platform_ids, 1000) {
            Err(e) => Err(e),
            Ok(exc) => match scope_values_rule("distribution_scope.resource_pool_ids"@, d.resource_pool_ids, 1000) {
                Err(e) => Err(e),
                Ok(pools) => Ok(DistScopeV {
                    mode: d.mode,
                    included_platform_ids: inc,
                    excluded_platform_ids: exc,
                    resource_pool_ids: pools,
                    replication_policy: d.replication_policy,
                }),
            },
        },
    }
}

pub open spec fn content_hash_rule(value: Seq<char>) -> Result<Seq<char>, ErrorV> {
    let t = ascii_lower(trimmed(value));
    if t.len() < 16 || t.len() > 256 || !all_chars(t, |c: char| is_ascii_hex(c)) {
        Err(invalid("initial_sources.content_hash must be a hexadecimal content digest"@))
    } else {
        Ok(t)
    }
}

pub open spec fn is_http_locator(value: Seq<char>) -> bool {
    has_prefix(value, "http://"@) || has_prefix(value, "https://"@)
}

pub open spec fn source_rule(s: SourceV) -> Result<SourceV, ErrorV> {
    match text_rule("initial_sources.value"@, s.value, 2000000) {
        Err(e) => Err(e),
        Ok(value) => if s.kind == InitialSourceKind::Url && !is_http_locator(value) {
            Err(invalid("initial_sources URL must start with http:// or https://"@))
        } else {
            match maybe_text_rule("initial_sources.version_ref"@, s.version_ref, 1000) {
                Err(e) => Err(e),
                Ok(version_ref) => {
                    let hash: Result<Option<Seq<char>>, ErrorV> = match s.content_hash {
                        None => Ok(None),
                        Some(h) => match content_hash_rule(h) {
                            Ok(t) => Ok(Some(t)),
                            Err(e) => Err(e),
                        },
                    };
                    match hash {
                        Err(e) => Err(e),
                        Ok(content_hash) => if s.kind == InitialSourceKind::Url && version_ref == Some(value) {
                            Err(invalid("an URL value cannot be used as its own version_ref"@))
                        } else {
                            Ok(SourceV { kind: s.kind, value, visibility: s.visibility, version_ref, content_hash })
                        },
                    }
                },
            }
        },
    }
}

pub open spec fn schedule_result(r: Result<ReportSchedule, AppError>) -> Result<ScheduleV, ErrorV> {
    match r {
        Ok(v) => Ok(v@),
        Err(e) => Err(e@),
    }
}

pub open spec fn doc_scope_result(r: Result<DocumentScope, AppError>) -> Result<DocScopeV, ErrorV> {
    match r {
        Ok(v) => Ok(v@),
        Err(e) => Err(e@),
    }
}

pub open spec fn dist_scope_result(r: Result<DistributionScope, AppError>) -> Result<DistScopeV, ErrorV> {
    match r {
        Ok(v) => Ok(v@),
        Err(e) => Err(e@),
    }
}

pub open spec fn source_result(r: Result<InitialSource, AppError>) -> Result<SourceV, ErrorV> {
    match r {
        Ok(v) => Ok(v@),
        Err(e) => Err(e@),
    }
}

/// Trims a local time of day and checks that it reads as `HH:MM`.
pub fn validate_time(field: &str, value: String) -> (r: Result<String, AppError>)
    ensures
        text_result(r) == time_rule(field@, value@),
{
    let t = trim(value.as_str());
    match parse_hh_mm(t) {
        Some(_) => Ok(t.to_owned()),
        None => Err(AppError::with_message(ErrorCode::InvalidRequest, message2(field, " must be HH:MM"))),
    }
}

pub fn validate_report_schedule(schedule: ReportSchedule) -> (r: Result<ReportSchedule, AppError>)
    ensures
        schedule_result(r) == schedule_rule(schedule@),
{
    let report_local_time = validate_time("report_schedule.report_local_time", schedule.report_local_time)?;
    let cutoff_local_time = validate_time("report_schedule.cutoff_local_time", schedule.cutoff_local_time)?;
    Ok(ReportSchedule {
        report_weekday: schedule.report_weekday,
        report_local_time,
        cutoff_weekday: schedule.cutoff_weekday,
        cutoff_local_time,
        period_policy: schedule.period_policy,
    })
}

pub fn validate_scope_values(field: &str, values: Vec<String>, max: usize) -> (r: Result<Vec<String>, AppError>)
    ensures
        texts_result(r) == scope_values_rule(field@, strs(values@), max as nat),
{
    if values.len() > max {
        return Err(AppError::with_message(ErrorCode::InvalidRequest, message2(field, " has too many entries")));
    }
    validate_texts(field, values, 200)
}

fn validate_cluster(cluster: &QuestionClusterScope) -> (r: Result<QuestionClusterScope, AppError>)
    ensures
        match r {
            Ok(c) => cluster_rule(cluster@) == Ok::<ClusterV, ErrorV>(c@),
            Err(e) => cluster_rule(cluster@) == Err::<ClusterV, ErrorV>(e@),
        },
{
    let key = validate_text("document_scope.question_clusters.key", cluster.key.clone(), 200)?;
    Ok(QuestionClusterScope { key, state: cluster.state })
}

fn validate_clusters(clusters: &Vec<QuestionClusterScope>) -> (r: Result<Vec<QuestionClusterScope>, AppError>)
    ensures
        match r {
            Ok(v) => map_rule(clusters_view(clusters@), |c: ClusterV| cluster_rule(c)) == Ok::<Seq<ClusterV>, ErrorV>(clusters_view(v@)),
            Err(e) => map_rule(clusters_view(clusters@), |c: ClusterV| cluster_rule(c)) == Err::<Seq<ClusterV>, ErrorV>(e@),
        },
{
    let ghost f = |c: ClusterV| cluster_rule(c);
    let ghost items = clusters_view(clusters@);
    let mut out: Vec<QuestionClusterScope> = Vec::new();
    let n = clusters.len();
    let mut i: usize = 0;
    assert(items.take(0) =~= Seq::<ClusterV>::empty());
    assert(clusters_view(out@) =~= Seq::<ClusterV>::empty());
    while i < n
        invariant
            n == clusters@.len(),
            items == clusters_view(clusters@),
            f == (|c: ClusterV| cluster_rule(c)),
            i <= n,
            map_rule(items.take(i as int), f) == Ok::<Seq<ClusterV>, ErrorV>(clusters_view(out@)),
        decreases n - i,
    {
        assert(items.take(i + 1).drop_last() =~= items.take(i as int));
        assert(items.take(i + 1).last() == clusters@[i as int]@);
        match validate_cluster(&clusters[i]) {
            Ok(c) => {
                let ghost before = out@;
                let ghost cv = c@;
                out.push(c);
                assert(clusters_view(out@) =~= clusters_view(before).push(cv));
            },
            Err(e) => {
                proof {
                    lemma_map_rule_err_extends(items, f, i + 1);
                }
                return Err(e);
            },
        }
        i = i + 1;
    }
    assert(items.take(n as int) =~= items);
    Ok(out)
}

pub fn validate_document_scope(scope: DocumentScope) -> (r: Result<DocumentScope, AppError>)
    ensures
        doc_scope_result(r) == doc_scope_rule(scope@),
{
    if scope.question_clusters.len() > 100 {
        return Err(AppError::invalid_request("document_scope.question_clusters has too many entries"));
    }
    let question_clusters = validate_clusters(&scope.question_clusters)?;
    let excluded_product_ids = validate_scope_values(
        "document_scope.excluded_product_ids",
        scope.excluded_product_ids,
        10000,
    )?;
    let markets = validate_scope_values("document_scope.markets", scope.markets, 100)?;
    let languages = validate_scope_values("document_scope.languages", scope.languages, 100)?;
    let content_types = validate_scope_values("document_scope.content_types", scope.content_types, 100)?;
    Ok(DocumentScope {
        all_active_products: scope.all_active_products,
        excluded_product_ids,
        markets,
        languages,
        content_types,
        question_clusters,
    })
}

pub fn validate_distribution_scope(scope: DistributionScope) -> (r: Result<DistributionScope, AppError>)
    ensures
        dist_scope_result(r) == dist_scope_rule(scope@),
{
    let included_platform_ids = validate_scope_values(
        "distribution_scope.included_platform_ids",
        scope.included_platform_ids,
        1000,
    )?;
    let excluded_platform_ids = validate_scope_values(
        "distribution_scope.excluded_platform_ids",
        scope.excluded_platform_ids,
        1000,
    )?;
    let resource_pool_ids = validate_scope_values(
        "distribution_scope.resource_pool_ids",
        scope.resource_pool_ids,
        1000,
    )?;
    Ok(DistributionScope {
        mode: scope.mode,
        included_platform_ids,
        excluded_platform_ids,
        resource_pool_ids,
        replication_policy: scope.replication_policy,
    })
}

pub fn validate_content_hash(value: String) -> (r: Result<String, AppError>)
    ensures
        text_result(r) == content_hash_rule(value@),
{
    let t = to_ascii_lowercase(trim(value.as_str()));
    let n = t.as_str().unicode_len();
    if n < 16 || n > 256 || !all_hex(t.as_str()) {
        return Err(AppError::invalid_request("initial_sources.content_hash must be a hexadecimal content digest"));
    }
    Ok(t)
}

impl InitialSource {
    pub fn validate(self) -> (r: Result<Self, AppError>)
        ensures
            source_result(r) == source_rule(self@),
    {
        let value = validate_text("initial_sources.value", self.value, 2000000)?;
        if self.kind == InitialSourceKind::Url
            && !(starts_with(value.as_str(), "http://") || starts_with(value.as_str(), "https://")) {
            return Err(AppError::invalid_request("initial_sources URL must start with http:// or https://"));
        }
        let version_ref = validate_maybe_text("initial_sources.version_ref", self.version_ref, 1000)?;
        let content_hash = match self.content_hash {
            None => None,
            Some(h) => Some(validate_content_hash(h)?),
        };
        if self.kind == InitialSourceKind::Url {
            if let Some(reference) = &version_ref {
                if str_eq(reference.as_str(), value.as_str()) {
                    return Err(AppError::invalid_request("an URL value cannot be used as its own version_ref"));
                }
            }
        }
        Ok(InitialSource { kind: self.kind, value, visibility: self.visibility, version_ref, content_hash })
    }
}

fn validate_sources(sources: &Vec<InitialSource>) -> (r: Result<Vec<InitialSource>, AppError>)
    ensures
        match r {
            Ok(v) => map_rule(sources_view(sources@), |s: SourceV| source_rule(s)) == Ok::<Seq<SourceV>, ErrorV>(sources_view(v@)),
            Err(e) => map_rule(sources_view(sources@), |s: SourceV| source_rule(s)) == Err::<Seq<SourceV>, ErrorV>(e@),
        },
{
    let ghost f = |s: SourceV| source_rule(s);
    let ghost items = sources_view(sources@);
    let mut out: Vec<InitialSource> = Vec::new();
    let n = sources.len();
    let mut i: usize = 0;
    assert(items.take(0) =~= Seq::<SourceV>::empty());
    assert(sources_view(out@) =~= Seq::<SourceV>::empty());
    while i < n
        invariant
            n == sources@.len(),
            items == sources_view(sources@),
            f == (|s: SourceV| source_rule(s)),
            i <= n,
            map_rule(items.take(i as int), f) == Ok::<Seq<SourceV>, ErrorV>(sources_view(out@)),
        decreases n - i,
    {
        assert(items.take(i + 1).drop_last() =~= items.take(i as int));
        assert(items.take(i + 1).last() == sources@[i as int]@);
        match sources[i].copy().validate() {
            Ok(c) => {
                let ghost before = out@;
                let ghost cv = c@;
                out.push(c);
                assert(sources_view(out@) =~= sources_view(before).push(cv));
            },
            Err(e) => {
                proof {
                    lemma_map_rule_err_extends(items, f, i + 1);
                }
                return Err(e);
            },
        }
        i = i + 1;
    }
    assert(items.take(n as int) =~= items);
    Ok(out)
}


// ---------------------------------------------------------------------------
// Project settings.
// ---------------------------------------------------------------------------

/// Editable project configuration.  Draft validation permits incomplete
/// inputs; only `validate_start` turns it into an executable snapshot.
#[derive(Debug)]
pub struct ProjectSettings {
    pub brand_name: String,
    pub product_name: Option<String>,
    /// Legacy shorthand for one market.
    pub market: String,
    /// Legacy shorthand for one language.
    pub language: String,
    pub target_audience: Option<String>,
    pub competitors: Vec<String>,
    pub initial_sources: Vec<InitialSource>,
    pub resource_mode: ResourceMode,
    pub budget_currency: String,
    pub monthly_budget_minor: i64,
    pub monitoring_reserve_percent: u8,
    pub report_timezone: String,
    pub report_schedule: ReportSchedule,
    pub objective: Option<String>,
    pub document_scope: DocumentScope,
    pub distribution_scope: DistributionScope,
}

pub struct SettingsV {
    pub brand_name: Seq<char>,
    pub product_name: Option<Seq<char>>,
    pub market: Seq<char>,
    pub language: Seq<char>,
    pub target_audience: Option<Seq<char>>,
    pub competitors: Seq<Seq<char>>,
    pub initial_sources: Seq<SourceV>,
    pub resource_mode: ResourceMode,
    pub budget_currency: Seq<char>,
    pub monthly_budget_minor: i64,
    pub monitoring_reserve_percent: u8,
    pub report_timezone: Seq<char>,
    pub report_schedule: ScheduleV,
    pub objective: Option<Seq<char>>,
    pub document_scope: DocScopeV,
    pub distribution_scope: DistScopeV,
}

impl View for ProjectSettings {
    type V = SettingsV;

    open spec fn view(&self) -> SettingsV {
        SettingsV {
            brand_name: self.brand_name@,
            product_name: opt_text(self.product_name),
            market: self.market@,
            language: self.language@,
            target_audience: opt_text(self.target_audience),
            competitors: strs(self.competitors@),
            initial_sources: sources_view(self.initial_sources@),
            resource_mode: self.resource_mode,
            budget_currency: self.budget_currency@,
            monthly_budget_minor: self.monthly_budget_minor,
            monitoring_reserve_percent: self.monitoring_reserve_percent,
            report_timezone: self.report_timezone@,
            report_schedule: self.report_schedule@,
            objective: opt_text(self.objective),
            document_scope: self.document_scope@,
            distribution_scope: self.distribution_scope@,
        }
    }
}

pub fn default_budget_currency() -> (currency: String)
    ensures
        currency@ == "CNY"@,
{
    "CNY".to_owned()
}

pub fn default_monitoring_reserve_percent() -> (percent: u8)
    ensures
        percent == 20,
{
    20
}

pub fn default_report_timezone() -> (timezone: String)
    ensures
        timezone@ == "Asia/Shanghai"@,
{
    "Asia/Shanghai".to_owned()
}

/// The budget currency of a draft: trimmed, upper-cased, three ASCII letters.
pub open spec fn currency_rule(value: Seq<char>) -> Result<Seq<char>, ErrorV> {
    let c = ascii_upper(trimmed(value));
    if c.len() != 3 || !all_chars(c, |ch: char| is_ascii_upper(ch)) {
        Err(invalid("budget_currency must be a three-letter ISO 4217 code"@))
    } else {
        Ok(c)
    }
}

/// What a draft is normalized to, or the first rule it breaks.
pub open spec fn draft_rule(s: SettingsV) -> Result<SettingsV, ErrorV> {
    match optional_text_rule("brand_name"@, s.brand_name, 200) {
    Err(e) => Err(e),
    Ok(brand_name) => match maybe_text_rule("product_name"@, s.product_name, 200) {
    Err(e) => Err(e),
    Ok(product_name) => match optional_text_rule("market"@, s.market, 100) {
    Err(e) => Err(e),
    Ok(market) => match optional_text_rule("language"@, s.language, 50) {
    Err(e) => Err(e),
    Ok(language) => match maybe_text_rule("target_audience"@, s.target_audience, 200) {
    Err(e) => Err(e),
    Ok(target_audience) => match maybe_text_rule("objective"@, s.objective, 2000) {
    Err(e) => Err(e),
    Ok(objective) => if s.competitors.len() > 5 {
        Err(ErrorV {
            details: Some(("competitors"@, 5)),
            ..invalid("competitors must contain at most 5 entries"@)
        })
    } else {
    match texts_rule("competitors"@, s.competitors, 200) {
    Err(e) => Err(e),
    Ok(competitors) => if s.initial_sources.len() > 100 {
        Err(ErrorV {
            details: Some(("initial_sources"@, 100)),
            ..invalid("initial_sources must contain at most 100 entries"@)
        })
    } else {
    match map_rule(s.initial_sources, |x: SourceV| source_rule(x)) {
    Err(e) => Err(e),
    Ok(initial_sources) => if s.monthly_budget_minor < 0 {
        Err(invalid("monthly_budget_minor must be non-negative"@))
    } else {
    match currency_rule(s.budget_currency) {
    Err(e) => Err(e),
    Ok(budget_currency) => if s.monitoring_reserve_percent > 100 {
        Err(invalid("monitoring_reserve_percent must be between 0 and 100"@))
    } else if !tz_known(trimmed(s.report_timezone)) {
        Err(invalid("report_timezone must be a valid IANA timezone"@))
    } else {
    match schedule_rule(s.report_schedule) {
    Err(e) => Err(e),
    Ok(report_schedule) => match doc_scope_rule(s.document_scope) {
    Err(e) => Err(e),
    Ok(document_scope) => match dist_scope_rule(s.distribution_scope) {
    Err(e) => Err(e),
    Ok(distribution_scope) => Ok(SettingsV {
        brand_name,
        product_name,
        market,
        language,
        target_audience,
        competitors,
        initial_sources,
        resource_mode: s.resource_mode,
        budget_currency,
        monthly_budget_minor: s.monthly_budget_minor,
        monitoring_reserve_percent: s.monitoring_reserve_percent,
        report_timezone: trimmed(s.report_timezone),
        report_schedule,
        objective,
        document_scope,
        distribution_scope,
    }),
    }}}}}}}}}}}}}}}
    }
}

proof fn lemma_time_rule_idempotent(field: Seq<char>, value: Seq<char>)
    ensures
        time_rule(field, value) matches Ok(t) ==> time_rule(field, t) == Ok::<Seq<char>, ErrorV>(t),
{
    crate::text::lemma_trimmed_idempotent(value);
}

proof fn lemma_scope_values_idempotent(field: Seq<char>, values: Seq<Seq<char>>, max: nat)
    ensures
        scope_values_rule(field, values, max) matches Ok(t) ==> scope_values_rule(field, t, max) == Ok::<Seq<Seq<char>>, ErrorV>(t),
{
    crate::rules::lemma_texts_rule_idempotent(field, values, 200);
}

proof fn lemma_hex_digest_clean(value: Seq<char>)
    ensures
        content_hash_rule(value) matches Ok(t) ==> content_hash_rule(t) == Ok::<Seq<char>, ErrorV>(t),
{
    let t = ascii_lower(trimmed(value));
    if content_hash_rule(value) is Ok {
        assert(is_ascii_hex(t[0]) && is_ascii_hex(t.last()));
        crate::text::lemma_trim_clean(t);
        crate::text::lemma_lower_absorbs(trimmed(value));
    }
}

proof fn lemma_source_rule_idempotent(s: SourceV)
    ensures
        source_rule(s) matches Ok(t) ==> source_rule(t) == Ok::<SourceV, ErrorV>(t),
{
    crate::rules::lemma_text_rule_idempotent("initial_sources.value"@, s.value, 2000000);
    crate::rules::lemma_maybe_text_rule_idempotent("initial_sources.version_ref"@, s.version_ref, 1000);
    if let Some(h) = s.content_hash {
        lemma_hex_digest_clean(h);
    }
}

proof fn lemma_currency_rule_idempotent(value: Seq<char>)
    ensures
        currency_rule(value) matches Ok(c) ==> currency_rule(c) == Ok::<Seq<char>, ErrorV>(c),
{
    let c = ascii_upper(trimmed(value));
    if currency_rule(value) is Ok {
        assert(is_ascii_upper(c[0]) && is_ascii_upper(c.last()));
        crate::text::lemma_trim_clean(c);
        crate::text::lemma_upper_idempotent(trimmed(value));
    }
}

proof fn lemma_doc_scope_idempotent(d: DocScopeV)
    ensures
        doc_scope_rule(d) matches Ok(t) ==> doc_scope_rule(t) == Ok::<DocScopeV, ErrorV>(t),
{
    let f = |c: ClusterV| cluster_rule(c);
    assert forall|c: ClusterV| (#[trigger] f(c) matches Ok(y) ==> f(y) == Ok::<ClusterV, ErrorV>(y)) by {
        crate::rules::lemma_text_rule_idempotent("document_scope.question_clusters.key"@, c.key, 200);
    }
    crate::rules::lemma_map_rule_idempotent(d.question_clusters, f);
    lemma_scope_values_idempotent("document_scope.excluded_product_ids"@, d.excluded_product_ids, 10000);
    lemma_scope_values_idempotent("document_scope.markets"@, d.markets, 100);
    lemma_scope_values_idempotent("document_scope.languages"@, d.languages, 100);
    lemma_scope_values_idempotent("document_scope.content_types"@, d.content_types, 100);
}

proof fn lemma_dist_scope_idempotent(d: DistScopeV)
    ensures
        dist_scope_rule(d) matches Ok(t) ==> dist_scope_rule(t) == Ok::<DistScopeV, ErrorV>(t),
{
    lemma_scope_values_idempotent("distribution_scope.included_platform_ids"@, d.included_platform_ids, 1000);
    lemma_scope_values_idempotent("distribution_scope.excluded_platform_ids"@, d.excluded_platform_ids, 1000);
    lemma_scope_values_idempotent("distribution_scope.resource_pool_ids"@, d.resource_pool_ids, 1000);
}

/// Validating settings that validation produced gives them back unchanged.
pub proof fn lemma_draft_rule_idempotent(s: SettingsV)
    ensures
        draft_rule(s) matches Ok(v) ==> draft_rule(v) == Ok::<SettingsV, ErrorV>(v),
{
    crate::rules::lemma_text_rule_idempotent("brand_name"@, s.brand_name, 200);
    crate::rules::lemma_maybe_text_rule_idempotent("product_name"@, s.product_name, 200);
    crate::rules::lemma_text_rule_idempotent("market"@, s.market, 100);
    crate::rules::lemma_text_rule_idempotent("language"@, s.language, 50);
    crate::rules::lemma_maybe_text_rule_idempotent("target_audience"@, s.target_audience, 200);
    crate::rules::lemma_maybe_text_rule_idempotent("objective"@, s.objective, 2000);
    crate::rules::lemma_texts_rule_idempotent("competitors"@, s.competitors, 200);
    let f = |x: SourceV| source_rule(x);
    assert forall|x: SourceV| (#[trigger] f(x) matches Ok(y) ==> f(y) == Ok::<SourceV, ErrorV>(y)) by {
        lemma_source_rule_idempotent(x);
    }
    crate::rules::lemma_map_rule_idempotent(s.initial_sources, f);
    lemma_currency_rule_idempotent(s.budget_currency);
    crate::text::lemma_trimmed_idempotent(s.report_timezone);
    lemma_time_rule_idempotent("report_schedule.report_local_time"@, s.report_schedule.report_local_time);
    lemma_time_rule_idempotent("report_schedule.cutoff_local_time"@, s.report_schedule.cutoff_local_time);
    lemma_doc_scope_idempotent(s.document_scope);
    lemma_dist_scope_idempotent(s.distribution_scope);
}

/// The markets a project targets: the document scope's, else the legacy one.
pub open spec fn effective_markets_of(s: SettingsV) -> Seq<Seq<char>> {
    if s.document_scope.markets.len() == 0 {
        if s.market.len() == 0 {
            Seq::empty()
        } else {
            seq![s.market]
        }
    } else {
        s.document_scope.markets
    }
}

/// The languages a project targets: the document scope's, else the legacy one.
pub open spec fn effective_languages_of(s: SettingsV) -> Seq<Seq<char>> {
    if s.document_scope.languages.len() == 0 {
        if s.language.len() == 0 {
            Seq::empty()
        } else {
            seq![s.language]
        }
    } else {
        s.document_scope.languages
    }
}

/// The first start requirement a normalized draft misses.
pub open spec fn start_gap(v: SettingsV) -> Option<ErrorV> {
    if v.brand_name.len() == 0 {
        Some(invalid("brand_name is required to start"@))
    } else if v.initial_sources.len() == 0 {
        Some(invalid("at least one initial source is required to start"@))
    } else if effective_markets_of(v).len() == 0 || effective_languages_of(v).len() == 0 {
        Some(invalid("document_scope must include at least one market and language to start"@))
    } else if !v.document_scope.all_active_products {
        Some(invalid(
            "W02 start requires document_scope.all_active_products=true until explicit product inclusion is available"@,
        ))
    } else if v.distribution_scope.mode == DistributionScopeMode::Explicit
        && v.distribution_scope.included_platform_ids.len() == 0 {
        Some(invalid("explicit distribution_scope requires included_platform_ids"@))
    } else {
        None
    }
}

/// What a startable snapshot is, or why the settings cannot start.
pub open spec fn start_rule(s: SettingsV) -> Result<SettingsV, ErrorV> {
    match draft_rule(s) {
        Err(e) => Err(e),
        Ok(v) => match start_gap(v) {
            Some(e) => Err(e),
            None => Ok(v),
        },
    }
}

pub open spec fn settings_result(r: Result<ProjectSettings, AppError>) -> Result<SettingsV, ErrorV> {
    match r {
        Ok(v) => Ok(v@),
        Err(e) => Err(e@),
    }
}

fn validate_currency(value: String) -> (r: Result<String, AppError>)
    ensures
        text_result(r) == currency_rule(value@),
{
    let c = to_ascii_uppercase(trim(value.as_str()));
    if c.as_str().unicode_len() != 3 || !all_ascii_upper(c.as_str()) {
        return Err(AppError::invalid_request("budget_currency must be a three-letter ISO 4217 code"));
    }
    Ok(c)
}

fn copy_strings(v: &Vec<String>) -> (r: Vec<String>)
    ensures
        r@ == v@,
{
    let mut out: Vec<String> = Vec::new();
    let mut i: usize = 0;
    while i < v.len()
        invariant
            i <= v@.len(),
            out@ == v@.take(i as int),
        decreases v@.len() - i,
    {
        out.push(v[i].clone());
        assert(out@ =~= v@.take(i + 1));
        i = i + 1;
    }
    assert(v@.take(v@.len() as int) =~= v@);
    out
}

impl ProjectSettings {
    /// Normalizes a draft, or names the first rule it breaks.
    #[verifier::rlimit(50)]
    pub fn validate_draft(self) -> (r: Result<Self, AppError>)
        ensures
            settings_result(r) == draft_rule(self@),
    {
        let brand_name = validate_optional_text("brand_name", self.brand_name, 200)?;
        let product_name = validate_maybe_text("product_name", self.product_name, 200)?;
        let market = validate_optional_text("market", self.market, 100)?;
        let language = validate_optional_text("language", self.language, 50)?;
        let target_audience = validate_maybe_text("target_audience", self.target_audience, 200)?;
        let objective = validate_maybe_text("objective", self.objective, 2000)?;
        if self.competitors.len() > 5 {
            return Err(
                AppError::invalid_request("competitors must contain at most 5 entries").with_details("competitors", 5),
            );
        }
        let competitors = validate_texts("competitors", self.competitors, 200)?;
        if self.initial_sources.len() > 100 {
            return Err(
                AppError::invalid_request("initial_sources must contain at most 100 entries").with_details(
                    "initial_sources",
                    100,
                ),
            );
        }
        let initial_sources = validate_sources(&self.initial_sources)?;
        if self.monthly_budget_minor < 0 {
            return Err(AppError::invalid_request("monthly_budget_minor must be non-negative"));
        }
        let budget_currency = validate_currency(self.budget_currency)?;
        if self.monitoring_reserve_percent > 100 {
            return Err(AppError::invalid_request("monitoring_reserve_percent must be between 0 and 100"));
        }
        let report_timezone = trim(self.report_timezone.as_str()).to_owned();
        if !is_known_timezone(report_timezone.as_str()) {
            return Err(AppError::invalid_request("report_timezone must be a valid IANA timezone"));
        }
        let report_schedule = validate_report_schedule(self.report_schedule)?;
        let document_scope = validate_document_scope(self.document_scope)?;
        let distribution_scope = validate_distribution_scope(self.distribution_scope)?;
        Ok(ProjectSettings {
            brand_name,
            product_name,
            market,
            language,
            target_audience,
            competitors,
            initial_sources,
            resource_mode: self.resource_mode,
            budget_currency,
            monthly_budget_minor: self.monthly_budget_minor,
            monitoring_reserve_percent: self.monitoring_reserve_percent,
            report_timezone,
            report_schedule,
            objective,
            document_scope,
            distribution_scope,
        })
    }

    /// Validates that a draft is complete enough to snapshot and start.  A
    /// zero budget is valid: free knowledge work can proceed while paid work
    /// remains blocked by later phases.
    pub fn validate_start(self) -> (r: Result<Self, AppError>)
        ensures
            settings_result(r) == start_rule(self@),
    {
        let settings = self.validate_draft()?;
        if settings.brand_name.as_str().unicode_len() == 0 {
            return Err(AppError::invalid_request("brand_name is required to start"));
        }
        if settings.initial_sources.len() == 0 {
            return Err(AppError::invalid_request("at least one initial source is required to start"));
        }
        if settings.effective_markets().len() == 0 || settings.effective_languages().len() == 0 {
            return Err(
                AppError::invalid_request("document_scope must include at least one market and language to start"),
            );
        }
        if !settings.document_scope.all_active_products {
            return Err(
                AppError::invalid_request(
                    "W02 start requires document_scope.all_active_products=true until explicit product inclusion is available",
                ),
            );
        }
        if settings.distribution_scope.mode == DistributionScopeMode::Explicit
            && settings.distribution_scope.included_platform_ids.len() == 0 {
            return Err(AppError::invalid_request("explicit distribution_scope requires included_platform_ids"));
        }
        Ok(settings)
    }

    /// Kept as an alias for callers that create complete settings.
    pub fn validate(self) -> (r: Result<Self, AppError>)
        ensures
            settings_result(r) == draft_rule(self@),
    {
        self.validate_draft()
    }

    pub fn effective_markets(&self) -> (markets: Vec<String>)
        ensures
            strs(markets@) == effective_markets_of(self@),
    {
        if self.document_scope.markets.len() == 0 {
            if self.market.as_str().unicode_len() == 0 {
                let v: Vec<String> = Vec::new();
                assert(strs(v@) =~= Seq::<Seq<char>>::empty());
                v
            } else {
                let mut v: Vec<String> = Vec::new();
                v.push(self.market.clone());
                assert(strs(v@) =~= seq![self.market@]);
                v
            }
        } else {
            copy_strings(&self.document_scope.markets)
        }
    }

    pub fn effective_languages(&self) -> (languages: Vec<String>)
        ensures
            strs(languages@) == effective_languages_of(self@),
    {
        if self.document_scope.languages.len() == 0 {
            if self.language.as_str().unicode_len() == 0 {
                let v: Vec<String> = Vec::new();
                assert(strs(v@) =~= Seq::<Seq<char>>::empty());
                v
            } else {
                let mut v: Vec<String> = Vec::new();
                v.push(self.language.clone());
                assert(strs(v@) =~= seq![self.language@]);
                v
            }
        } else {
            copy_strings(&self.document_scope.languages)
        }
    }
}


// ---------------------------------------------------------------------------
// Copies and defaults.
// ---------------------------------------------------------------------------

fn copy_clusters(v: &Vec<QuestionClusterScope>) -> (r: Vec<QuestionClusterScope>)
    ensures
        clusters_view(r@) == clusters_view(v@),
{
    let mut out: Vec<QuestionClusterScope> = Vec::new();
    let mut i: usize = 0;
    while i < v.len()
        invariant
            i <= v@.len(),
            clusters_view(out@) == clusters_view(v@.take(i as int)),
        decreases v@.len() - i,
    {
        let ghost before = out@;
        out.push(QuestionClusterScope { key: v[i].key.clone(), state: v[i].state });
        assert(clusters_view(out@) =~= clusters_view(before).push(v@[i as int]@));
        assert(clusters_view(v@.take(i + 1)) =~= clusters_view(v@.take(i as int)).push(v@[i as int]@));
        i = i + 1;
    }
    assert(v@.take(v@.len() as int) =~= v@);
    out
}

fn copy_sources(v: &Vec<InitialSource>) -> (r: Vec<InitialSource>)
    ensures
        sources_view(r@) == sources_view(v@),
{
    let mut out: Vec<InitialSource> = Vec::new();
    let mut i: usize = 0;
    while i < v.len()
        invariant
            i <= v@.len(),
            sources_view(out@) == sources_view(v@.take(i as int)),
        decreases v@.len() - i,
    {
        let ghost before = out@;
        out.push(v[i].copy());
        assert(sources_view(out@) =~= sources_view(before).push(v@[i as int]@));
        assert(sources_view(v@.take(i + 1)) =~= sources_view(v@.take(i as int)).push(v@[i as int]@));
        i = i + 1;
    }
    assert(v@.take(v@.len() as int) =~= v@);
    out
}

impl DocumentScope {
    pub fn copy(&self) -> (r: Self)
        ensures
            r@ == self@,
    {
        DocumentScope {
            all_active_products: self.all_active_products,
            excluded_product_ids: copy_strings(&self.excluded_product_ids),
            markets: copy_strings(&self.markets),
            languages: copy_strings(&self.languages),
            content_types: copy_strings(&self.content_types),
            question_clusters: copy_clusters(&self.question_clusters),
        }
    }
}

impl DistributionScope {
    pub fn copy(&self) -> (r: Self)
        ensures
            r@ == self@,
    {
        DistributionScope {
            mode: self.mode,
            included_platform_ids: copy_strings(&self.included_platform_ids),
            excluded_platform_ids: copy_strings(&self.excluded_platform_ids),
            resource_pool_ids: copy_strings(&self.resource_pool_ids),
            replication_policy: self.replication_policy,
        }
    }
}

pub fn copy_opt_string(v: &Option<String>) -> (r: Option<String>)
    ensures
        opt_text(r) == opt_text(*v),
{
    match v {
        Some(s) => Some(s.clone()),
        None => None,
    }
}

impl ProjectSettings {
    pub fn copy(&self) -> (r: Self)
        ensures
            r@ == self@,
    {
        ProjectSettings {
            brand_name: self.brand_name.clone(),
            product_name: copy_opt_string(&self.product_name),
            market: self.market.clone(),
            language: self.language.clone(),
            target_audience: copy_opt_string(&self.target_audience),
            competitors: copy_strings(&self.competitors),
            initial_sources: copy_sources(&self.initial_sources),
            resource_mode: self.resource_mode,
            budget_currency: self.budget_currency.clone(),
            monthly_budget_minor: self.monthly_budget_minor,
            monitoring_reserve_percent: self.monitoring_reserve_percent,
            report_timezone: self.report_timezone.clone(),
            report_schedule: self.report_schedule.copy(),
            objective: copy_opt_string(&self.objective),
            document_scope: self.document_scope.copy(),
            distribution_scope: self.distribution_scope.copy(),
        }
    }

    /// An empty draft: no brand or sources, own resources, a CNY budget of
    /// zero with a 20% monitoring reserve, weekly reports in Asia/Shanghai.
    pub fn default() -> (settings: Self)
        ensures
            settings@.brand_name == Seq::<char>::empty(),
            settings@.product_name is None,
            settings@.market == Seq::<char>::empty(),
            settings@.language == Seq::<char>::empty(),
            settings@.target_audience is None,
            settings@.competitors == Seq::<Seq<char>>::empty(),
            settings@.initial_sources == Seq::<SourceV>::empty(),
            settings@.resource_mode == ResourceMode::Own,
            settings@.budget_currency == "CNY"@,
            settings@.monthly_budget_minor == 0,
            settings@.monitoring_reserve_percent == 20,
            settings@.report_timezone == "Asia/Shanghai"@,
            settings@.report_schedule == ReportSchedule::default_view(),
            settings@.objective is None,
            settings@.document_scope == DocumentScope::default_view(),
            settings@.distribution_scope == DistributionScope::default_view(),
    {
        let settings = ProjectSettings {
            brand_name: String::new(),
            product_name: None,
            market: String::new(),
            language: String::new(),
            target_audience: None,
            competitors: Vec::new(),
            initial_sources: Vec::new(),
            resource_mode: ResourceMode::Own,
            budget_currency: default_budget_currency(),
            monthly_budget_minor: 0,
            monitoring_reserve_percent: default_monitoring_reserve_percent(),
            report_timezone: default_report_timezone(),
            report_schedule: ReportSchedule::default(),
            objective: None,
            document_scope: DocumentScope::default(),
            distribution_scope: DistributionScope::default(),
        };
        assert(settings@.competitors =~= Seq::<Seq<char>>::empty());
        assert(settings@.initial_sources =~= Seq::<SourceV>::empty());
        settings
    }
}

impl ReportSchedule {
    pub open spec fn default_view() -> ScheduleV {
        ScheduleV {
            report_weekday: ReportWeekday::Monday,
            report_local_time: "09:00"@,
            cutoff_weekday: ReportWeekday::Monday,
            cutoff_local_time: "00:00"@,
            period_policy: PeriodPolicy::PreviousCalendarWeek,
        }
    }
}

impl DocumentScope {
    pub open spec fn default_view() -> DocScopeV {
        DocScopeV {
            all_active_products: true,
            excluded_product_ids: Seq::empty(),
            markets: Seq::empty(),
            languages: Seq::empty(),
            content_types: Seq::empty(),
            question_clusters: Seq::empty(),
        }
    }
}

impl DistributionScope {
    pub open spec fn default_view() -> DistScopeV {
        DistScopeV {
            mode: DistributionScopeMode::AllEligible,
            included_platform_ids: Seq::empty(),
            excluded_platform_ids: Seq::empty(),
            resource_pool_ids: Seq::empty(),
            replication_policy: ReplicationPolicy::OneAccountPerPlatform,
        }
    }
}


// ---------------------------------------------------------------------------
// Projects.
// ---------------------------------------------------------------------------

#[derive(Debug)]
pub struct Project {
    pub id: ProjectId,
    pub operator_id: OperatorId,
    pub tenant_id: TenantId,
    pub slug: String,
    pub display_name: String,
    pub settings: ProjectSettings,
    pub status: ProjectStatus,
    pub revision: i64,
    pub current_config_revision_id: Option<u128>,
    pub current_cycle_id: Option<u128>,
    pub start_operation_id: Option<u128>,
    /// Microseconds since the Unix epoch.
    pub created_at: i64,
    pub updated_at: i64,
}

pub struct ProjectV {
    pub id: ProjectId,
    pub operator_id: OperatorId,
    pub tenant_id: TenantId,
    pub slug: Seq<char>,
    pub display_name: Seq<char>,
    pub settings: SettingsV,
    pub status: ProjectStatus,
    pub revision: i64,
    pub current_config_revision_id: Option<u128>,
    pub current_cycle_id: Option<u128>,
    pub start_operation_id: Option<u128>,
    pub created_at: i64,
    pub updated_at: i64,
}

impl View for Project {
    type V = ProjectV;

    open spec fn view(&self) -> ProjectV {
        ProjectV {
            id: self.id,
            operator_id: self.operator_id,
            tenant_id: self.tenant_id,
            slug: self.slug@,
            display_name: self.display_name@,
            settings: self.settings@,
            status: self.status,
            revision: self.revision,
            current_config_revision_id: self.current_config_revision_id,
            current_cycle_id: self.current_cycle_id,
            start_operation_id: self.start_operation_id,
            created_at: self.created_at,
            updated_at: self.updated_at,
        }
    }
}

pub open spec fn project_scope_of(p: ProjectV) -> TenantScope {
    TenantScope { operator_id: p.operator_id, tenant_id: p.tenant_id, project_id: Some(p.id) }
}

/// A new draft, or the first rule its inputs break.
pub open spec fn new_project_rule(
    id: ProjectId,
    scope: TenantScope,
    slug: Seq<char>,
    display_name: Seq<char>,
    settings: SettingsV,
    now: i64,
) -> Result<ProjectV, ErrorV> {
    if scope.project_id.is_some() && scope.project_id != Some(id) {
        Err(invalid("project scope does not match project id"@))
    } else {
        match text_rule("slug"@, slug, 100) {
            Err(e) => Err(e),
            Ok(slug) => match text_rule("display_name"@, display_name, 200) {
                Err(e) => Err(e),
                Ok(display_name) => match draft_rule(settings) {
                    Err(e) => Err(e),
                    Ok(settings) => Ok(ProjectV {
                        id,
                        operator_id: scope.operator_id,
                        tenant_id: scope.tenant_id,
                        slug,
                        display_name,
                        settings,
                        status: ProjectStatus::Draft,
                        revision: 1,
                        current_config_revision_id: None,
                        current_cycle_id: None,
                        start_operation_id: None,
                        created_at: now,
                        updated_at: now,
                    }),
                },
            },
        }
    }
}

impl Project {
    /// A new draft project in `scope`, created now.
    pub fn new(id: ProjectId, scope: &TenantScope, slug: String, display_name: String, settings: ProjectSettings) -> (r:
        Result<Self, AppError>)
        ensures
            match r {
                Ok(p) => new_project_rule(id, *scope, slug@, display_name@, settings@, p.created_at) == Ok::<ProjectV, ErrorV>(p@),
                Err(e) => new_project_rule(id, *scope, slug@, display_name@, settings@, 0) == Err::<ProjectV, ErrorV>(e@),
            },
    {
        if let Some(project_id) = scope.project_id {
            if project_id != id {
                return Err(AppError::invalid_request("project scope does not match project id"));
            }
        }
        let now = utc_now_micros();
        let slug = validate_text("slug", slug, 100)?;
        let display_name = validate_text("display_name", display_name, 200)?;
        let settings = settings.validate_draft()?;
        Ok(Project {
            id,
            operator_id: scope.operator_id,
            tenant_id: scope.tenant_id,
            slug,
            display_name,
            settings,
            status: ProjectStatus::Draft,
            revision: 1,
            current_config_revision_id: None,
            current_cycle_id: None,
            start_operation_id: None,
            created_at: now,
            updated_at: now,
        })
    }

    pub fn scope(&self) -> (scope: TenantScope)
        ensures
            scope == project_scope_of(self@),
    {
        TenantScope::new(self.operator_id, self.tenant_id, Some(self.id))
    }

    pub fn copy(&self) -> (r: Self)
        ensures
            r@ == self@,
    {
        Project {
            id: self.id,
            operator_id: self.operator_id,
            tenant_id: self.tenant_id,
            slug: self.slug.clone(),
            display_name: self.display_name.clone(),
            settings: self.settings.copy(),
            status: self.status,
            revision: self.revision,
            current_config_revision_id: self.current_config_revision_id,
            current_cycle_id: self.current_cycle_id,
            start_operation_id: self.start_operation_id,
            created_at: self.created_at,
            updated_at: self.updated_at,
        }
    }
}

#[derive(Debug)]
pub struct ProjectCreate {
    pub slug: Option<String>,
    pub display_name: String,
    pub settings: ProjectSettings,
}

/// A configuration change.  `clear_*` removes an optional field; lifecycle
/// status is never changed by a patch.
#[derive(Debug)]
pub struct ProjectPatch {
    pub slug: Option<String>,
    pub display_name: Option<String>,
    pub brand_name: Option<String>,
    pub product_name: Option<String>,
    pub clear_product_name: bool,
    pub market: Option<String>,
    pub language: Option<String>,
    pub target_audience: Option<String>,
    pub clear_target_audience: bool,
    pub competitors: Option<Vec<String>>,
    pub initial_sources: Option<Vec<InitialSource>>,
    pub resource_mode: Option<ResourceMode>,
    pub budget_currency: Option<String>,
    pub monthly_budget_minor: Option<i64>,
    pub monitoring_reserve_percent: Option<u8>,
    pub report_timezone: Option<String>,
    pub report_schedule: Option<ReportSchedule>,
    pub objective: Option<String>,
    pub clear_objective: bool,
    pub document_scope: Option<DocumentScope>,
    pub distribution_scope: Option<DistributionScope>,
    pub status: Option<ProjectStatus>,
}

pub struct PatchV {
    pub slug: Option<Seq<char>>,
    pub display_name: Option<Seq<char>>,
    pub brand_name: Option<Seq<char>>,
    pub product_name: Option<Seq<char>>,
    pub clear_product_name: bool,
    pub market: Option<Seq<char>>,
    pub language: Option<Seq<char>>,
    pub target_audience: Option<Seq<char>>,
    pub clear_target_audience: bool,
    pub competitors: Option<Seq<Seq<char>>>,
    pub initial_sources: Option<Seq<SourceV>>,
    pub resource_mode: Option<ResourceMode>,
    pub budget_currency: Option<Seq<char>>,
    pub monthly_budget_minor: Option<i64>,
    pub monitoring_reserve_percent: Option<u8>,
    pub report_timezone: Option<Seq<char>>,
    pub report_schedule: Option<ScheduleV>,
    pub objective: Option<Seq<char>>,
    pub clear_objective: bool,
    pub document_scope: Option<DocScopeV>,
    pub distribution_scope: Option<DistScopeV>,
    pub status: Option<ProjectStatus>,
}

impl View for ProjectPatch {
    type V = PatchV;

    open spec fn view(&self) -> PatchV {
        PatchV {
            slug: opt_text(self.slug),
            display_name: opt_text(self.display_name),
            brand_name: opt_text(self.brand_name),
            product_name: opt_text(self.product_name),
            clear_product_name: self.clear_product_name,
            market: opt_text(self.market),
            language: opt_text(self.language),
            target_audience: opt_text(self.target_audience),
            clear_target_audience: self.clear_target_audience,
            competitors: match self.competitors {
                Some(v) => Some(strs(v@)),
                None => None,
            },
            initial_sources: match self.initial_sources {
                Some(v) => Some(sources_view(v@)),
                None => None,
            },
            resource_mode: self.resource_mode,
            budget_currency: opt_text(self.budget_currency),
            monthly_budget_minor: self.monthly_budget_minor,
            monitoring_reserve_percent: self.monitoring_reserve_percent,
            report_timezone: opt_text(self.report_timezone),
            report_schedule: match self.report_schedule {
                Some(v) => Some(v@),
                None => None,
            },
            objective: opt_text(self.objective),
            clear_objective: self.clear_objective,
            document_scope: match self.document_scope {
                Some(v) => Some(v@),
                None => None,
            },
            distribution_scope: match self.distribution_scope {
                Some(v) => Some(v@),
                None => None,
            },
            status: self.status,
        }
    }
}

pub open spec fn overlay<T>(patch: Option<T>, current: T) -> T {
    match patch {
        Some(v) => v,
        None => current,
    }
}

pub open spec fn overlay_clearable(clear: bool, patch: Option<Seq<char>>, current: Option<Seq<char>>) -> Option<Seq<char>> {
    if clear {
        None
    } else {
        match patch {
            Some(v) => Some(v),
            None => current,
        }
    }
}

/// The settings a patch asks for, before they are validated.
pub open spec fn patched_settings(p: PatchV, s: SettingsV) -> SettingsV {
    SettingsV {
        brand_name: overlay(p.brand_name, s.brand_name),
        product_name: overlay_clearable(p.clear_product_name, p.product_name, s.product_name),
        market: overlay(p.market, s.market),
        language: overlay(p.language, s.language),
        target_audience: overlay_clearable(p.clear_target_audience, p.target_audience, s.target_audience),
        competitors: overlay(p.competitors, s.competitors),
        initial_sources: overlay(p.initial_sources, s.initial_sources),
        resource_mode: overlay(p.resource_mode, s.resource_mode),
        budget_currency: overlay(p.budget_currency, s.budget_currency),
        monthly_budget_minor: overlay(p.monthly_budget_minor, s.monthly_budget_minor),
        monitoring_reserve_percent: overlay(p.monitoring_reserve_percent, s.monitoring_reserve_percent),
        report_timezone: overlay(p.report_timezone, s.report_timezone),
        report_schedule: overlay(p.report_schedule, s.report_schedule),
        objective: overlay_clearable(p.clear_objective, p.objective, s.objective),
        document_scope: overlay(p.document_scope, s.document_scope),
        distribution_scope: overlay(p.distribution_scope, s.distribution_scope),
    }
}

/// The project after a patch and the error that stopped it, if any.  Steps
/// apply in order (slug, display name, settings, lifecycle check); a failing
/// step leaves the earlier ones applied.
pub open spec fn patch_rule(p: PatchV, proj: ProjectV) -> (ProjectV, Option<ErrorV>) {
    let slug_step: Result<ProjectV, ErrorV> = match p.slug {
        None => Ok(proj),
        Some(v) => match text_rule("slug"@, v, 100) {
            Ok(t) => Ok(ProjectV { slug: t, ..proj }),
            Err(e) => Err(e),
        },
    };
    match slug_step {
        Err(e) => (proj, Some(e)),
        Ok(p1) => {
            let name_step: Result<ProjectV, ErrorV> = match p.display_name {
                None => Ok(p1),
                Some(v) => match text_rule("display_name"@, v, 200) {
                    Ok(t) => Ok(ProjectV { display_name: t, ..p1 }),
                    Err(e) => Err(e),
                },
            };
            match name_step {
                Err(e) => (p1, Some(e)),
                Ok(p2) => match draft_rule(patched_settings(p, p2.settings)) {
                    Err(e) => (p2, Some(e)),
                    Ok(settings) => {
                        let p3 = ProjectV { settings, ..p2 };
                        match p.status {
                            Some(status) => if status != p3.status {
                                (p3, Some(invalid("project lifecycle transitions must use a command"@)))
                            } else {
                                (p3, None)
                            },
                            None => (p3, None),
                        }
                    },
                },
            }
        },
    }
}

/// Validating settings rejects them only as an invalid request.
pub proof fn lemma_draft_rule_invalid_only(s: SettingsV)
    ensures
        draft_rule(s) matches Err(e) ==> e.code == ErrorCode::InvalidRequest,
{
    crate::rules::lemma_texts_rule_invalid_only("competitors"@, s.competitors, 200);
    let f = |x: SourceV| source_rule(x);
    crate::rules::lemma_map_rule_invalid_only(s.initial_sources, f);
    let d = s.document_scope;
    let g = |c: ClusterV| cluster_rule(c);
    crate::rules::lemma_map_rule_invalid_only(d.question_clusters, g);
    crate::rules::lemma_texts_rule_invalid_only("document_scope.excluded_product_ids"@, d.excluded_product_ids, 200);
    crate::rules::lemma_texts_rule_invalid_only("document_scope.markets"@, d.markets, 200);
    crate::rules::lemma_texts_rule_invalid_only("document_scope.languages"@, d.languages, 200);
    crate::rules::lemma_texts_rule_invalid_only("document_scope.content_types"@, d.content_types, 200);
    let t = s.distribution_scope;
    crate::rules::lemma_texts_rule_invalid_only("distribution_scope.included_platform_ids"@, t.included_platform_ids, 200);
    crate::rules::lemma_texts_rule_invalid_only("distribution_scope.excluded_platform_ids"@, t.excluded_platform_ids, 200);
    crate::rules::lemma_texts_rule_invalid_only("distribution_scope.resource_pool_ids"@, t.resource_pool_ids, 200);
}

/// A patch is refused only as an invalid request.
pub proof fn lemma_patch_rule_invalid_only(p: PatchV, proj: ProjectV)
    ensures
        patch_rule(p, proj).1 matches Some(e) ==> e.code == ErrorCode::InvalidRequest,
{
    let slug_step: Result<ProjectV, ErrorV> = match p.slug {
        None => Ok(proj),
        Some(v) => match text_rule("slug"@, v, 100) {
            Ok(t) => Ok(ProjectV { slug: t, ..proj }),
            Err(e) => Err(e),
        },
    };
    if let Ok(p1) = slug_step {
        let name_step: Result<ProjectV, ErrorV> = match p.display_name {
            None => Ok(p1),
            Some(v) => match text_rule("display_name"@, v, 200) {
                Ok(t) => Ok(ProjectV { display_name: t, ..p1 }),
                Err(e) => Err(e),
            },
        };
        if let Ok(p2) = name_step {
            lemma_draft_rule_invalid_only(patched_settings(p, p2.settings));
        }
    }
}

pub open spec fn err_of(r: Result<(), AppError>) -> Option<ErrorV> {
    match r {
        Ok(()) => None,
        Err(e) => Some(e@),
    }
}

fn overlay_string(patch: &Option<String>, current: String) -> (r: String)
    ensures
        r@ == overlay(opt_text(*patch), current@),
{
    match patch {
        Some(v) => v.clone(),
        None => current,
    }
}

fn overlay_clearable_string(clear: bool, patch: &Option<String>, current: Option<String>) -> (r: Option<String>)
    ensures
        opt_text(r) == overlay_clearable(clear, opt_text(*patch), opt_text(current)),
{
    if clear {
        None
    } else {
        match patch {
            Some(v) => Some(v.clone()),
            None => current,
        }
    }
}

impl ProjectPatch {
    /// The settings this patch asks for on top of `current`, not yet validated.
    fn patched(&self, current: ProjectSettings) -> (settings: ProjectSettings)
        ensures
            settings@ == patched_settings(self@, current@),
    {
        ProjectSettings {
            brand_name: overlay_string(&self.brand_name, current.brand_name),
            product_name: overlay_clearable_string(self.clear_product_name, &self.product_name, current.product_name),
            market: overlay_string(&self.market, current.market),
            language: overlay_string(&self.language, current.language),
            target_audience: overlay_clearable_string(
                self.clear_target_audience,
                &self.target_audience,
                current.target_audience,
            ),
            competitors: match &self.competitors {
                Some(v) => copy_strings(v),
                None => current.competitors,
            },
            initial_sources: match &self.initial_sources {
                Some(v) => copy_sources(v),
                None => current.initial_sources,
            },
            resource_mode: match self.resource_mode {
                Some(v) => v,
                None => current.resource_mode,
            },
            budget_currency: overlay_string(&self.budget_currency, current.budget_currency),
            monthly_budget_minor: match self.monthly_budget_minor {
                Some(v) => v,
                None => current.monthly_budget_minor,
            },
            monitoring_reserve_percent: match self.monitoring_reserve_percent {
                Some(v) => v,
                None => current.monitoring_reserve_percent,
            },
            report_timezone: overlay_string(&self.report_timezone, current.report_timezone),
            report_schedule: match &self.report_schedule {
                Some(v) => v.copy(),
                None => current.report_schedule,
            },
            objective: overlay_clearable_string(self.clear_objective, &self.objective, current.objective),
            document_scope: match &self.document_scope {
                Some(v) => v.copy(),
                None => current.document_scope,
            },
            distribution_scope: match &self.distribution_scope {
                Some(v) => v.copy(),
                None => current.distribution_scope,
            },
        }
    }

    /// Applies the patch to `project` in place.
    pub fn apply_to(&self, project: &mut Project) -> (r: Result<(), AppError>)
        ensures
            (final(project)@, err_of(r)) == patch_rule(self@, old(project)@),
    {
        if let Some(slug) = &self.slug {
            project.slug = validate_text("slug", slug.clone(), 100)?;
        }
        if let Some(display_name) = &self.display_name {
            project.display_name = validate_text("display_name", display_name.clone(), 200)?;
        }
        let settings = self.patched(project.settings.copy());
        project.settings = settings.validate_draft()?;
        if let Some(status) = self.status {
            if status != project.status {
                return Err(AppError::invalid_request("project lifecycle transitions must use a command"));
            }
        }
        Ok(())
    }
}


// ---------------------------------------------------------------------------
// Starting a project.
// ---------------------------------------------------------------------------

#[derive(Debug)]
pub struct UpdateProject {
    pub project: Project,
    pub previous_revision: i64,
}

/// A start request as the repository receives it.
#[derive(Debug)]
pub struct ProjectStartCommand {
    pub expected_revision: i64,
    /// SHA-256 digest of the HTTP idempotency key; the raw key is never kept.
    pub idempotency_key_hash: String,
    /// SHA-256 digest over project, action, revision and settings hash.
    pub request_hash: String,
    pub settings_hash: String,
    pub operation_id: u128,
}

#[derive(Debug, Clone, Copy, PartialEq, Eq, Structural)]
pub enum StartAcceptanceStatus {
    Accepted,
}

#[derive(Debug)]
pub struct DocumentManifestAcceptance {
    pub manifest_id: u128,
    pub revision: i32,
    pub state: String,
    pub sealed: bool,
    pub expected_count: Option<i64>,
}

#[derive(Debug)]
pub struct DistributionManifestAcceptance {
    pub manifest_id: u128,
    pub revision: i32,
    pub state: String,
    pub sealed: bool,
    pub expected_count: Option<i64>,
}

#[derive(Debug)]
pub struct ProjectStartAcceptance {
    pub operation_id: u128,
    pub cycle_id: u128,
    pub config_revision_id: u128,
    pub document_manifest: DocumentManifestAcceptance,
    pub distribution_manifest: DistributionManifestAcceptance,
    pub status: StartAcceptanceStatus,
    pub operation_url: String,
}

impl ProjectStartAcceptance {
    pub fn copy(&self) -> (r: Self)
        ensures
            r == *self,
    {
        ProjectStartAcceptance {
            operation_id: self.operation_id,
            cycle_id: self.cycle_id,
            config_revision_id: self.config_revision_id,
            document_manifest: DocumentManifestAcceptance {
                manifest_id: self.document_manifest.manifest_id,
                revision: self.document_manifest.revision,
                state: self.document_manifest.state.clone(),
                sealed: self.document_manifest.sealed,
                expected_count: self.document_manifest.expected_count,
            },
            distribution_manifest: DistributionManifestAcceptance {
                manifest_id: self.distribution_manifest.manifest_id,
                revision: self.distribution_manifest.revision,
                state: self.distribution_manifest.state.clone(),
                sealed: self.distribution_manifest.sealed,
                expected_count: self.distribution_manifest.expected_count,
            },
            status: self.status,
            operation_url: self.operation_url.clone(),
        }
    }
}

/// What a started project froze.
#[derive(Debug)]
pub struct ProjectStartView {
    pub project_id: ProjectId,
    pub acceptance: ProjectStartAcceptance,
    pub requested_revision: i64,
    pub settings_hash: String,
    pub report_window_start_at: i64,
    pub report_window_end_at: i64,
    pub cutoff_at: i64,
}

impl ProjectStartView {
    pub fn copy(&self) -> (r: Self)
        ensures
            r == *self,
    {
        ProjectStartView {
            project_id: self.project_id,
            acceptance: self.acceptance.copy(),
            requested_revision: self.requested_revision,
            settings_hash: self.settings_hash.clone(),
            report_window_start_at: self.report_window_start_at,
            report_window_end_at: self.report_window_end_at,
            cutoff_at: self.cutoff_at,
        }
    }
}

/// The SHA-256 text of an idempotency key.
pub fn hash_idempotency_key(key: &str) -> (hash: String)
    ensures
        hash@ == sha256_hex_text(utf8(key@)),
{
    sha256_hex_str(key)
}

/// The canonical text a start request hash is taken over.
pub open spec fn start_request_text(project_id: ProjectId, expected_revision: i64, settings_hash: Seq<char>) -> Seq<char> {
    "project="@ + uuid_text(project_id.0) + "\naction=project.start\nrevision="@ + int_text(expected_revision as int)
        + "\nsettings_hash="@ + settings_hash
}

/// SHA-256 over project, action, revision and settings hash.
pub fn start_request_hash(project_id: ProjectId, expected_revision: i64, settings_hash: &str) -> (hash: String)
    ensures
        hash@ == sha256_hex_text(utf8(start_request_text(project_id, expected_revision, settings_hash@))),
{
    let text = String::from_str("project=");
    let id = uuid_to_string(project_id.0);
    let text = text.concat(id.as_str()).concat("\naction=project.start\nrevision=");
    let revision = i64_to_string(expected_revision);
    let text = text.concat(revision.as_str()).concat("\nsettings_hash=").concat(settings_hash);
    sha256_hex_str(text.as_str())
}

// ---------------------------------------------------------------------------
// Overview.
// ---------------------------------------------------------------------------

#[derive(Debug, Clone, Copy, PartialEq, Eq, Structural)]
pub enum OverviewCycleStatus {
    NotStarted,
    Running,
    Paused,
}

#[derive(Debug)]
pub struct OverviewCycle {
    pub status: OverviewCycleStatus,
    /// Only the cycle skeleton exists; knowledge-derived work has not begun
    /// and must never be presented as running.
    pub awaiting_knowledge: bool,
    pub cycle_id: Option<u128>,
}

#[derive(Debug, Clone, Copy, PartialEq, Eq, Structural)]
pub enum OverviewKnowledgeStatus {
    Empty,
    Importing,
    Ready,
}

#[derive(Debug)]
pub struct OverviewKnowledge {
    pub source_count: u64,
    pub fact_count: u64,
    pub status: OverviewKnowledgeStatus,
}

#[derive(Debug, Clone, Copy, PartialEq, Eq, Structural)]
pub enum OverviewBenchmarkStatus {
    NotStarted,
    Running,
    Ready,
}

#[derive(Debug)]
pub struct OverviewBenchmark {
    pub question_count: u64,
    pub planned_samples: u64,
    pub effective_samples: Option<u64>,
    pub status: OverviewBenchmarkStatus,
}

#[derive(Debug)]
pub struct OverviewContent {
    pub published_count: u64,
    pub verified_count: u64,
    pub blocked_count: u64,
}

#[derive(Debug)]
pub struct OverviewCost {
    pub currency: String,
    pub reserved_minor: i64,
    pub settled_minor: i64,
}

#[derive(Debug)]
pub struct OverviewAction {
    pub code: String,
    pub label: String,
    pub href: String,
}

#[derive(Debug)]
pub struct ProjectOverview {
    pub project: Project,
    pub cycle: OverviewCycle,
    pub knowledge: OverviewKnowledge,
    pub benchmark: OverviewBenchmark,
    pub content: OverviewContent,
    pub cost: OverviewCost,
    pub next_action: Option<OverviewAction>,
    pub updated_at: i64,
}

impl ProjectOverview {
    /// A project with nothing measured, published or spent yet; the next step
    /// is to import knowledge.
    pub fn empty(project: Project) -> (o: Self)
        ensures
            o.project@ == project@,
            o.updated_at == project.updated_at,
            o.cycle.status == OverviewCycleStatus::NotStarted,
            !o.cycle.awaiting_knowledge,
            o.cycle.cycle_id is None,
            o.knowledge.source_count == 0,
            o.knowledge.fact_count == 0,
            o.knowledge.status == OverviewKnowledgeStatus::Empty,
            o.benchmark.question_count == 0,
            o.benchmark.planned_samples == 0,
            o.benchmark.effective_samples is None,
            o.benchmark.status == OverviewBenchmarkStatus::NotStarted,
            o.content.published_count == 0,
            o.content.verified_count == 0,
            o.content.blocked_count == 0,
            o.cost.currency@ == project.settings.budget_currency@,
            o.cost.reserved_minor == 0,
            o.cost.settled_minor == 0,
            o.next_action matches Some(a) && a.code@ == "import_knowledge"@ && a.label@ == "导入资料"@ && a.href@
                == "knowledge"@,
    {
        let currency = project.settings.budget_currency.clone();
        let updated_at = project.updated_at;
        ProjectOverview {
            updated_at,
            project,
            cycle: OverviewCycle { status: OverviewCycleStatus::NotStarted, awaiting_knowledge: false, cycle_id: None },
            knowledge: OverviewKnowledge { source_count: 0, fact_count: 0, status: OverviewKnowledgeStatus::Empty },
            benchmark: OverviewBenchmark {
                question_count: 0,
                planned_samples: 0,
                effective_samples: None,
                status: OverviewBenchmarkStatus::NotStarted,
            },
            content: OverviewContent { published_count: 0, verified_count: 0, blocked_count: 0 },
            cost: OverviewCost { currency, reserved_minor: 0, settled_minor: 0 },
            next_action: Some(
                OverviewAction {
                    code: "import_knowledge".to_owned(),
                    label: "导入资料".to_owned(),
                    href: "knowledge".to_owned(),
                },
            ),
        }
    }

    /// The overview of a project, with its started cycle awaiting knowledge
    /// when it has been started.
    pub fn from_start(project: Project, start: Option<ProjectStartView>) -> (o: Self)
        ensures
            o.project@ == project@,
            o.updated_at == project.updated_at,
            o.cycle.status == OverviewCycleStatus::NotStarted,
            o.cycle.awaiting_knowledge == start.is_some(),
            o.cycle.cycle_id == (match start {
                Some(s) => Some(s.acceptance.cycle_id),
                None => None,
            }),
            o.knowledge.status == OverviewKnowledgeStatus::Empty,
            o.knowledge.source_count == 0,
            o.knowledge.fact_count == 0,
            o.cost.currency@ == project.settings.budget_currency@,
    {
        let mut overview = Self::empty(project);
        if let Some(start) = start {
            overview.cycle = OverviewCycle {
                status: OverviewCycleStatus::NotStarted,
                awaiting_knowledge: true,
                cycle_id: Some(start.acceptance.cycle_id),
            };
        }
        overview
    }

    /// Folds the knowledge counts in: ready once a release exists (and the
    /// cycle then no longer awaits knowledge), importing while imports run,
    /// else empty.
    pub fn with_knowledge(self, source_count: u64, fact_count: u64, importing_count: u64, current_release_id: Option<
        u128,
    >) -> (o: Self)
        ensures
            o.project@ == self.project@,
            o.knowledge.source_count == source_count,
            o.knowledge.fact_count == fact_count,
            o.knowledge.status == (if current_release_id.is_some() {
                OverviewKnowledgeStatus::Ready
            } else if importing_count > 0 {
                OverviewKnowledgeStatus::Importing
            } else {
                OverviewKnowledgeStatus::Empty
            }),
            o.cycle.awaiting_knowledge == (self.cycle.awaiting_knowledge && current_release_id.is_none()),
            o.cycle.status == self.cycle.status,
            o.cycle.cycle_id == self.cycle.cycle_id,
            o.updated_at == self.updated_at,
    {
        let mut overview = self;
        overview.knowledge.source_count = source_count;
        overview.knowledge.fact_count = fact_count;
        overview.knowledge.status = if current_release_id.is_some() {
            OverviewKnowledgeStatus::Ready
        } else if importing_count > 0 {
            OverviewKnowledgeStatus::Importing
        } else {
            OverviewKnowledgeStatus::Empty
        };
        if current_release_id.is_some() {
            overview.cycle.awaiting_knowledge = false;
        }
        overview
    }
}

} // verus!
