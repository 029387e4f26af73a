//! The in-memory project repository: drafts, optimistic updates, cursor
//! pages and the all-or-nothing project start.

use vstd::prelude::*;
use vstd::string::StringExecFns;
use crate::clock::utc_now_micros;
use crate::digest::{sha256_hex_text, utf8};
use crate::error::{AppError, ErrorCode, ErrorV, err};
use crate::ids::{new_uuid, uuid_value, uuid_parse, uuid_text, uuid_to_string, ProjectId, TenantScope, scope_contains};
use crate::project::{
    DistributionManifestAcceptance, DocumentManifestAcceptance, Project, ProjectCreate, ProjectPatch,
    ProjectStartAcceptance, ProjectStartCommand, ProjectStartView, ProjectStatus, ProjectV, SettingsV,
    StartAcceptanceStatus, UpdateProject, err_of, new_project_rule, patch_rule, project_scope_of,
    start_request_hash, start_request_text, start_rule,
};
use crate::rules::{i64_to_string, int_text, invalid};
use crate::schedule::{max_calendar_instant, min_calendar_instant, previous_calendar_week_window, window_spec};
use crate::text::{opt_text, parse_i64, signed_decimal, split_once, split_once_spec, str_eq, take_chars};

verus! {

/// What a started project keeps beside the project itself.
#[derive(Debug)]
pub struct StartRecord {
    pub project_id: ProjectId,
    pub idempotency_key_hash: String,
    pub request_hash: String,
    pub view: ProjectStartView,
}

pub struct StartRecordV {
    pub project_id: ProjectId,
    pub idempotency_key_hash: Seq<char>,
    pub request_hash: Seq<char>,
    pub view: ProjectStartView,
}

impl View for StartRecord {
    type V = StartRecordV;

    open spec fn view(&self) -> StartRecordV {
        StartRecordV {
            project_id: self.project_id,
            idempotency_key_hash: self.idempotency_key_hash@,
            request_hash: self.request_hash@,
            view: self.view,
        }
    }
}

/// A page of projects and the cursor of the next one.
#[derive(Debug)]
pub struct ProjectPage {
    pub items: Vec<Project>,
    pub next_cursor: Option<String>,
}

/// Projects and their start records, held under one lock by the caller.
#[derive(Debug)]
pub struct MemoryProjectRepository {
    projects: Vec<Project>,
    starts: Vec<StartRecord>,
    fail_next_start: bool,
}

pub struct ProjectStoreV {
    pub projects: Seq<ProjectV>,
    pub starts: Seq<StartRecordV>,
    pub fail_next_start: bool,
}

pub open spec fn project_views(v: Seq<Project>) -> Seq<ProjectV> {
    v.map_values(|p: Project| p@)
}

pub open spec fn record_views(v: Seq<StartRecord>) -> Seq<StartRecordV> {
    v.map_values(|r: StartRecord| r@)
}

impl View for MemoryProjectRepository {
    type V = ProjectStoreV;

    closed spec fn view(&self) -> ProjectStoreV {
        ProjectStoreV {
            projects: project_views(self.projects@),
            starts: record_views(self.starts@),
            fail_next_start: self.fail_next_start,
        }
    }
}

// ---------------------------------------------------------------------------
// The model.
// ---------------------------------------------------------------------------

pub open spec fn project_ids_unique(ps: Seq<ProjectV>) -> bool {
    forall|i: int, j: int| 0 <= i < ps.len() && 0 <= j < ps.len() && #[trigger] ps[i].id == #[trigger] ps[j].id ==> i == j
}

pub open spec fn start_ids_unique(rs: Seq<StartRecordV>) -> bool {
    forall|i: int, j: int|
        0 <= i < rs.len() && 0 <= j < rs.len() && #[trigger] rs[i].project_id == #[trigger] rs[j].project_id ==> i == j
}

pub open spec fn has_project(ps: Seq<ProjectV>, id: ProjectId) -> bool {
    exists|i: int| 0 <= i < ps.len() && #[trigger] ps[i].id == id
}

pub open spec fn project_index(ps: Seq<ProjectV>, id: ProjectId) -> int {
    choose|i: int| 0 <= i < ps.len() && #[trigger] ps[i].id == id
}

/// The project stored under `id`.
pub open spec fn lookup_project(ps: Seq<ProjectV>, id: ProjectId) -> Option<ProjectV> {
    if has_project(ps, id) {
        Some(ps[project_index(ps, id)])
    } else {
        None
    }
}

pub open spec fn has_start(rs: Seq<StartRecordV>, id: ProjectId) -> bool {
    exists|i: int| 0 <= i < rs.len() && #[trigger] rs[i].project_id == id
}

/// The start record of project `id`.
pub open spec fn lookup_start(rs: Seq<StartRecordV>, id: ProjectId) -> Option<StartRecordV> {
    if has_start(rs, id) {
        Some(rs[choose|i: int| 0 <= i < rs.len() && #[trigger] rs[i].project_id == id])
    } else {
        None
    }
}

/// A scope sees a project of its operator and tenant, and only the named
/// project when it names one.
pub open spec fn visible(scope: TenantScope, p: ProjectV) -> bool {
    scope_contains(scope, project_scope_of(p))
}

/// The store after `p` is written under its id: replaced in place, or added.
pub open spec fn put_project(ps: Seq<ProjectV>, p: ProjectV) -> Seq<ProjectV> {
    if has_project(ps, p.id) {
        ps.update(project_index(ps, p.id), p)
    } else {
        ps.push(p)
    }
}

impl ProjectStoreV {
    pub open spec fn wf(self) -> bool {
        &&& project_ids_unique(self.projects)
        &&& start_ids_unique(self.starts)
    }
}

pub open spec fn slug_conflict_message() -> Seq<char> {
    "a project with this slug already exists in the tenant"@
}

pub open spec fn project_not_found() -> ErrorV {
    err(ErrorCode::NotFound, "project not found"@)
}

/// Whether another project of the same operator and tenant already uses `slug`.
pub open spec fn slug_taken(ps: Seq<ProjectV>, p: ProjectV, slug: Seq<char>) -> bool {
    exists|i: int|
        0 <= i < ps.len() && #[trigger] ps[i].operator_id == p.operator_id && ps[i].tenant_id == p.tenant_id
            && ps[i].slug == slug && ps[i].id != p.id
}

/// `created_at` before `id`: the order in which projects are listed.
pub open spec fn listed_before(a: ProjectV, b: ProjectV) -> bool {
    a.created_at < b.created_at || (a.created_at == b.created_at && a.id.0 < b.id.0)
}

pub open spec fn strictly_listed(s: Seq<ProjectV>) -> bool {
    forall|i: int, j: int| 0 <= i < j < s.len() ==> listed_before(#[trigger] s[i], #[trigger] s[j])
}

/// `listed` is the listing of `ps` in `scope`: every visible project once,
/// in order of creation and then id.
pub open spec fn is_listing(ps: Seq<ProjectV>, scope: TenantScope, listed: Seq<ProjectV>) -> bool {
    &&& strictly_listed(listed)
    &&& forall|p: ProjectV| listed.contains(p) <==> (ps.contains(p) && visible(scope, p))
}

pub open spec fn revision_conflict(expected: i64, current: i64) -> ErrorV {
    err(
        ErrorCode::Conflict,
        "project revision conflict: expected "@ + int_text(expected as int) + ", current "@ + int_text(current as int),
    )
}

pub open spec fn already_started() -> ErrorV {
    err(ErrorCode::Conflict, "project has already been started"@)
}

pub open spec fn key_reused() -> ErrorV {
    err(ErrorCode::Conflict, "Idempotency-Key was already used with a different project start request"@)
}

pub open spec fn settings_changed() -> ErrorV {
    err(ErrorCode::Conflict, "project settings changed while the start request was being prepared"@)
}

pub open spec fn injected_failure() -> ErrorV {
    err(ErrorCode::DependencyUnavailable, "injected project start failure"@)
}

pub open spec fn clock_out_of_range() -> ErrorV {
    err(ErrorCode::Internal, "current time is outside the supported calendar range"@)
}

/// How far a start request gets before anything is computed from the clock.
pub enum StartStep {
    Rejected(ErrorV),
    Replayed(ProjectStartAcceptance),
    Fresh(ProjectV, SettingsV),
}

pub open spec fn start_step(
    s: ProjectStoreV,
    scope: TenantScope,
    id: ProjectId,
    cmd: ProjectStartCommand,
    computed_hash: Seq<char>,
) -> StartStep {
    match lookup_project(s.projects, id) {
        None => StartStep::Rejected(project_not_found()),
        Some(p) => if !visible(scope, p) {
            StartStep::Rejected(project_not_found())
        } else {
            match lookup_start(s.starts, id) {
                Some(rec) => if rec.idempotency_key_hash == cmd.idempotency_key_hash@ {
                    if rec.request_hash == cmd.request_hash@ {
                        StartStep::Replayed(rec.view.acceptance)
                    } else {
                        StartStep::Rejected(key_reused())
                    }
                } else {
                    StartStep::Rejected(already_started())
                },
                None => if p.status != ProjectStatus::Draft {
                    StartStep::Rejected(already_started())
                } else if p.revision != cmd.expected_revision {
                    StartStep::Rejected(revision_conflict(cmd.expected_revision, p.revision))
                } else {
                    match start_rule(p.settings) {
                        Err(e) => StartStep::Rejected(e),
                        Ok(settings) => if computed_hash != cmd.settings_hash@ || sha256_hex_text(
                            utf8(start_request_text(id, cmd.expected_revision, computed_hash)),
                        ) != cmd.request_hash@ {
                            StartStep::Rejected(settings_changed())
                        } else {
                            StartStep::Fresh(p, settings)
                        },
                    }
                },
            }
        },
    }
}

/// The acceptance of a fresh start, whatever ids it was given.
pub open spec fn fresh_acceptance(a: ProjectStartAcceptance, cmd: ProjectStartCommand) -> bool {
    &&& a.operation_id == cmd.operation_id
    &&& a.document_manifest.revision == 1
    &&& a.document_manifest.state@ == "awaiting_knowledge"@
    &&& !a.document_manifest.sealed
    &&& a.document_manifest.expected_count is None
    &&& a.distribution_manifest.revision == 1
    &&& a.distribution_manifest.state@ == "awaiting_documents"@
    &&& !a.distribution_manifest.sealed
    &&& a.distribution_manifest.expected_count is None
    &&& a.status == StartAcceptanceStatus::Accepted
    &&& a.operation_url@ == "/api/v1/operations/"@ + uuid_text(cmd.operation_id)
}

/// The project once started by `a` at `now`.
pub open spec fn started_project(p: ProjectV, a: ProjectStartAcceptance, now: int) -> ProjectV {
    ProjectV {
        status: ProjectStatus::Active,
        revision: (p.revision + 1) as i64,
        updated_at: now as i64,
        current_config_revision_id: Some(a.config_revision_id),
        current_cycle_id: Some(a.cycle_id),
        start_operation_id: Some(a.operation_id),
        ..p
    }
}

/// What a start request does to the store at instant `now`, and its answer.
pub open spec fn start_outcome(
    old: ProjectStoreV,
    new: ProjectStoreV,
    scope: TenantScope,
    id: ProjectId,
    cmd: ProjectStartCommand,
    computed_hash: Seq<char>,
    now: int,
    r: Result<ProjectStartAcceptance, ErrorV>,
) -> bool {
    match start_step(old, scope, id, cmd, computed_hash) {
        StartStep::Rejected(e) => r == Err::<ProjectStartAcceptance, ErrorV>(e) && new == old,
        StartStep::Replayed(a) => r == Ok::<ProjectStartAcceptance, ErrorV>(a) && new == old,
        StartStep::Fresh(p, settings) => if !(min_calendar_instant() <= now <= max_calendar_instant()) {
            r == Err::<ProjectStartAcceptance, ErrorV>(clock_out_of_range()) && new == old
        } else {
            match window_spec(settings.report_timezone, settings.report_schedule, now) {
                Err(e) => r == Err::<ProjectStartAcceptance, ErrorV>(e) && new == old,
                Ok((window_start, window_end, cutoff)) => if old.fail_next_start {
                    r == Err::<ProjectStartAcceptance, ErrorV>(injected_failure()) && new == ProjectStoreV {
                        fail_next_start: false,
                        ..old
                    }
                } else {
                    match r {
                        Err(_) => false,
                        Ok(a) => {
                            &&& fresh_acceptance(a, cmd)
                            &&& new.fail_next_start == false
                            &&& new.projects == old.projects.update(
                                project_index(old.projects, id),
                                started_project(p, a, now),
                            )
                            &&& new.starts == old.starts.push(
                                StartRecordV {
                                    project_id: id,
                                    idempotency_key_hash: cmd.idempotency_key_hash@,
                                    request_hash: cmd.request_hash@,
                                    view: ProjectStartView {
                                        project_id: id,
                                        acceptance: a,
                                        requested_revision: cmd.expected_revision,
                                        settings_hash: cmd.settings_hash,
                                        report_window_start_at: window_start as i64,
                                        report_window_end_at: window_end as i64,
                                        cutoff_at: cutoff as i64,
                                    },
                                },
                            )
                        },
                    }
                },
            }
        },
    }
}

pub open spec fn result_view<T>(r: Result<T, AppError>) -> Result<T, ErrorV> {
    match r {
        Ok(v) => Ok(v),
        Err(e) => Err(e@),
    }
}

/// The slug of a created project: the one asked for, else `project-` and the
/// first eight characters of its id.
pub open spec fn chosen_slug(slug: Option<Seq<char>>, id: ProjectId) -> Seq<char> {
    match slug {
        Some(s) => s,
        None => "project-"@ + uuid_text(id.0).take(8),
    }
}

/// Update, step by step: visibility, revision, slug uniqueness, the patch.
pub open spec fn update_rule(
    s: ProjectStoreV,
    scope: TenantScope,
    id: ProjectId,
    expected_revision: i64,
    patch: crate::project::PatchV,
) -> Result<ProjectV, ErrorV> {
    match lookup_project(s.projects, id) {
        None => Err(project_not_found()),
        Some(p) => if !visible(scope, p) {
            Err(project_not_found())
        } else if p.revision != expected_revision {
            Err(revision_conflict(expected_revision, p.revision))
        } else if patch.slug is Some && slug_taken(
            s.projects,
            ProjectV { operator_id: scope.operator_id, tenant_id: scope.tenant_id, ..p },
            patch.slug->0,
        ) {
            Err(err(ErrorCode::Conflict, slug_conflict_message()))
        } else {
            match patch_rule(patch, p) {
                (_, Some(e)) => Err(e),
                (patched, None) => Ok(patched),
            }
        }
    }
}

// ---------------------------------------------------------------------------
// Cursors.
// ---------------------------------------------------------------------------

/// Milliseconds of an instant given in microseconds, rounded down.
pub open spec fn millis_of(micros: int) -> int {
    micros / 1000
}

pub open spec fn cursor_text(p: ProjectV) -> Seq<char> {
    int_text(millis_of(p.created_at as int)) + ":"@ + uuid_text(p.id.0)
}

/// `timestamp:id`, or the message that rejects it.
pub open spec fn cursor_rule(value: Seq<char>) -> Result<(i64, u128), ErrorV> {
    match split_once_spec(value, ':') {
        None => Err(invalid("cursor must be timestamp:id"@)),
        Some((ts, id)) => match signed_decimal(ts) {
            Some(t) if i64::MIN <= t <= i64::MAX => match uuid_parse(id) {
                Some(u) => Ok((t as i64, u)),
                None => Err(invalid("cursor project id is invalid"@)),
            },
            _ => Err(invalid("cursor timestamp is invalid"@)),
        },
    }
}

pub open spec fn after_cursor(p: ProjectV, cursor: (i64, u128)) -> bool {
    millis_of(p.created_at as int) > cursor.0 || (millis_of(p.created_at as int) == cursor.0 && p.id.0 > cursor.1)
}

/// The projects of `s` that come after `cursor`, in order.
pub open spec fn past_cursor(s: Seq<ProjectV>, cursor: Option<(i64, u128)>) -> Seq<ProjectV>
    decreases s.len(),
{
    if s.len() == 0 {
        s
    } else {
        let rest = past_cursor(s.drop_last(), cursor);
        match cursor {
            Some(c) => if after_cursor(s.last(), c) {
                rest.push(s.last())
            } else {
                rest
            },
            None => rest.push(s.last()),
        }
    }
}

pub open spec fn page_limit_error() -> ErrorV {
    invalid("limit must be between 1 and 100"@)
}

/// The limit and cursor of a page request, checked and read.
pub open spec fn page_request_rule(limit: usize, cursor: Option<Seq<char>>) -> Result<Option<(i64, u128)>, ErrorV> {
    if !(1 <= limit <= 100) {
        Err(page_limit_error())
    } else {
        match cursor {
            None => Ok(None),
            Some(c) => if c.len() == 0 {
                Err(invalid("cursor must not be empty"@))
            } else {
                match cursor_rule(c) {
                    Ok(v) => Ok(Some(v)),
                    Err(e) => Err(e),
                }
            },
        }
    }
}

/// The page a listing gives for a limit and a cursor.
pub open spec fn page_of(listed: Seq<ProjectV>, cursor: Option<(i64, u128)>, limit: nat) -> (Seq<ProjectV>, Option<
    Seq<char>,
>) {
    let after = past_cursor(listed, cursor);
    if after.len() > limit {
        (after.take(limit as int), Some(cursor_text(after[limit - 1])))
    } else {
        (after, None)
    }
}

/// `items` and `next` are the page of the listing of `ps` in `scope`.
pub open spec fn is_page(
    ps: Seq<ProjectV>,
    scope: TenantScope,
    cursor: Option<(i64, u128)>,
    limit: nat,
    items: Seq<ProjectV>,
    next: Option<Seq<char>>,
) -> bool {
    exists|listed: Seq<ProjectV>| is_listing(ps, scope, listed) && page_of(listed, cursor, limit) == (items, next)
}

fn millis(micros: i64) -> (m: i64)
    ensures
        m == millis_of(micros as int),
{
    if micros >= 0 {
        let q = (micros as u64) / 1000;
        assert(q * 1000 <= micros < q * 1000 + 1000) by (nonlinear_arith)
            requires q == (micros as u64) / 1000, micros >= 0;
        q as i64
    } else {
        let m = (-(micros + 1)) as u64;
        let q = m / 1000;
        assert(q * 1000 <= m < q * 1000 + 1000) by (nonlinear_arith)
            requires q == m / 1000;
        let r = -(q as i64) - 1;
        assert(r * 1000 <= micros < r * 1000 + 1000);
        r
    }
}

fn format_cursor(p: &Project) -> (text: String)
    ensures
        text@ == cursor_text(p@),
{
    let text = i64_to_string(millis(p.created_at));
    let text = text.concat(":");
    let id = uuid_to_string(p.id.0);
    text.concat(id.as_str())
}

fn parse_cursor(value: &str) -> (r: Result<(i64, u128), AppError>)
    ensures
        result_view(r) == cursor_rule(value@),
{
    let (timestamp, id) = match split_once(value, ':') {
        Some(parts) => parts,
        None => {
            return Err(AppError::invalid_request("cursor must be timestamp:id"));
        },
    };
    let timestamp = match parse_i64(timestamp) {
        Some(t) => t,
        None => {
            return Err(AppError::invalid_request("cursor timestamp is invalid"));
        },
    };
    match uuid_value(id) {
        Some(u) => Ok((timestamp, u)),
        None => Err(AppError::invalid_request("cursor project id is invalid")),
    }
}

fn project_listed_before(a: &Project, b: &Project) -> (r: bool)
    ensures
        r == listed_before(a@, b@),
{
    a.created_at < b.created_at || (a.created_at == b.created_at && a.id.0 < b.id.0)
}

fn is_visible(scope: &TenantScope, p: &Project) -> (r: bool)
    ensures
        r == visible(*scope, p@),
{
    scope.contains(&p.scope())
}

/// Inserts `p` where it keeps `out` in listing order.
fn insert_listed(out: &mut Vec<Project>, p: Project)
    requires
        strictly_listed(project_views(old(out)@)),
        forall|k: int| 0 <= k < old(out)@.len() ==> (#[trigger] old(out)@[k]).id != p.id,
    ensures
        strictly_listed(project_views(final(out)@)),
        final(out)@.len() == old(out)@.len() + 1,
        forall|q: ProjectV|
            project_views(final(out)@).contains(q) <==> (project_views(old(out)@).contains(q) || q == p@),
        forall|q: Project| final(out)@.contains(q) ==> (old(out)@.contains(q) || q@ == p@),
{
    let ghost before = project_views(out@);
    let mut pos: usize = 0;
    while pos < out.len() && project_listed_before(&out[pos], &p)
        invariant
            pos <= out.len(),
            out@ == old(out)@,
            forall|k: int| 0 <= k < pos ==> listed_before(#[trigger] out@[k]@, p@),
        decreases out.len() - pos,
    {
        pos += 1;
    }
    let ghost pv = p@;
    out.insert(pos, p);
    proof {
        let after = project_views(out@);
        before.insert_ensures(pos as int, pv);
        assert(after =~= before.insert(pos as int, pv));
        assert forall|i: int, j: int| 0 <= i < j < after.len() implies listed_before(
            #[trigger] after[i],
            #[trigger] after[j],
        ) by {
            if j < pos {
            } else if j == pos {
                assert(listed_before(old(out)@[i]@, pv));
            } else if i < pos {
                assert(listed_before(old(out)@[i]@, pv));
                if pos < before.len() {
                    assert(old(out)@[pos as int].id != pv.id);
                    assert(!listed_before(old(out)@[pos as int]@, pv));
                    assert(listed_before(pv, before[pos as int]));
                    if j - 1 > pos {
                        assert(listed_before(before[pos as int], before[j - 1]));
                    }
                }
            } else if i == pos {
                assert(old(out)@[pos as int].id != pv.id);
                assert(!listed_before(old(out)@[pos as int]@, pv));
                if j - 1 > pos {
                    assert(listed_before(before[pos as int], before[j - 1]));
                }
            } else {
                assert(listed_before(before[i - 1], before[j - 1]));
            }
        }
        assert forall|q: ProjectV| after.contains(q) <==> (before.contains(q) || q == pv) by {
            if after.contains(q) {
                let k = choose|k: int| 0 <= k < after.len() && after[k] == q;
                if k < pos {
                    assert(before[k] == q);
                } else if k > pos {
                    assert(before[k - 1] == q);
                }
            }
            if before.contains(q) {
                let k = choose|k: int| 0 <= k < before.len() && before[k] == q;
                if k < pos {
                    assert(after[k] == q);
                } else {
                    assert(after[k + 1] == q);
                }
            }
            if q == pv {
                assert(after[pos as int] == q);
            }
        }
        assert forall|q: Project| out@.contains(q) implies (old(out)@.contains(q) || q@ == pv) by {
            let k = choose|k: int| 0 <= k < out@.len() && out@[k] == q;
            if k < pos {
                assert(old(out)@[k] == q);
            } else if k > pos {
                assert(old(out)@[k - 1] == q);
            }
        }
    }
}

impl MemoryProjectRepository {
    pub fn new() -> (repo: Self)
        ensures
            repo@.projects.len() == 0,
            repo@.starts.len() == 0,
            !repo@.fail_next_start,
            repo@.wf(),
    {
        let repo = MemoryProjectRepository { projects: Vec::new(), starts: Vec::new(), fail_next_start: false };
        assert(repo@.projects =~= Seq::<ProjectV>::empty());
        assert(repo@.starts =~= Seq::<StartRecordV>::empty());
        repo
    }

    /// Makes the next start that reaches its commit fail before any state
    /// changes.
    pub fn fail_next_start_for_test(&mut self)
        ensures
            final(self)@ == (ProjectStoreV { fail_next_start: true, ..old(self)@ }),
    {
        self.fail_next_start = true;
        assert(self@.projects =~= old(self)@.projects);
        assert(self@.starts =~= old(self)@.starts);
    }

    fn position(&self, id: ProjectId) -> (r: Option<usize>)
        requires
            self@.wf(),
        ensures
            match r {
                Some(i) => i < self@.projects.len() && self@.projects[i as int].id == id && has_project(
                    self@.projects,
                    id,
                ) && project_index(self@.projects, id) == i && lookup_project(self@.projects, id) == Some(
                    self@.projects[i as int],
                ),
                None => !has_project(self@.projects, id) && lookup_project(self@.projects, id) is None,
            },
    {
        let ghost ps = self@.projects;
        let mut i: usize = 0;
        while i < self.projects.len()
            invariant
                i <= self.projects.len(),
                ps == project_views(self.projects@),
                project_ids_unique(ps),
                forall|k: int| 0 <= k < i ==> (#[trigger] ps[k]).id != id,
            decreases self.projects.len() - i,
        {
            if self.projects[i].id == id {
                assert(ps[i as int].id == id);
                proof {
                    let j = project_index(ps, id);
                    assert(ps[j].id == ps[i as int].id);
                }
                return Some(i);
            }
            i += 1;
        }
        None
    }

    fn start_position(&self, id: ProjectId) -> (r: Option<usize>)
        requires
            self@.wf(),
        ensures
            match r {
                Some(i) => i < self@.starts.len() && lookup_start(self@.starts, id) == Some(self@.starts[i as int]),
                None => lookup_start(self@.starts, id) is None,
            },
    {
        let ghost rs = self@.starts;
        let mut i: usize = 0;
        while i < self.starts.len()
            invariant
                i <= self.starts.len(),
                rs == record_views(self.starts@),
                start_ids_unique(rs),
                forall|k: int| 0 <= k < i ==> (#[trigger] rs[k]).project_id != id,
            decreases self.starts.len() - i,
        {
            if self.starts[i].project_id == id {
                assert(rs[i as int].project_id == id);
                proof {
                    let j = choose|j: int| 0 <= j < rs.len() && #[trigger] rs[j].project_id == id;
                    assert(rs[j].project_id == rs[i as int].project_id);
                }
                return Some(i);
            }
            i += 1;
        }
        None
    }

    fn slug_in_use(&self, candidate: &Project, slug: &str) -> (taken: bool)
        ensures
            taken == slug_taken(self@.projects, candidate@, slug@),
    {
        let ghost ps = self@.projects;
        let mut i: usize = 0;
        while i < self.projects.len()
            invariant
                i <= self.projects.len(),
                ps == project_views(self.projects@),
                forall|k: int|
                    0 <= k < i ==> !(#[trigger] ps[k].operator_id == candidate.operator_id && ps[k].tenant_id
                        == candidate.tenant_id && ps[k].slug == slug@ && ps[k].id != candidate.id),
            decreases self.projects.len() - i,
        {
            let other = &self.projects[i];
            if other.operator_id == candidate.operator_id && other.tenant_id == candidate.tenant_id
                && str_eq(other.slug.as_str(), slug) && other.id != candidate.id {
                assert(ps[i as int].operator_id == candidate.operator_id);
                return true;
            }
            i += 1;
        }
        false
    }

    /// Stores `project` under its id unless another project of its tenant
    /// already has its slug.
    pub fn insert(&mut self, project: Project) -> (r: Result<(), AppError>)
        requires
            old(self)@.wf(),
        ensures
            final(self)@.wf(),
            final(self)@.starts == old(self)@.starts,
            final(self)@.fail_next_start == old(self)@.fail_next_start,
            slug_taken(old(self)@.projects, project@, project@.slug) ==> result_view(r) == Err::<(), ErrorV>(
                err(ErrorCode::Conflict, slug_conflict_message()),
            ) && final(self)@ == old(self)@,
            !slug_taken(old(self)@.projects, project@, project@.slug) ==> r is Ok && final(self)@.projects
                == put_project(old(self)@.projects, project@),
    {
        if self.slug_in_use(&project, project.slug.as_str()) {
            return Err(AppError::conflict("a project with this slug already exists in the tenant"));
        }
        let ghost ps = self@.projects;
        let ghost pv = project@;
        match self.position(project.id) {
            Some(i) => {
                self.projects.set(i, project);
                assert(self@.projects =~= ps.update(i as int, pv));
            },
            None => {
                self.projects.push(project);
                assert(self@.projects =~= ps.push(pv));
            },
        }
        assert(self@.starts =~= old(self)@.starts);
        Ok(())
    }

    /// The projects `scope` sees, oldest first and then by id.
    pub fn list(&self, scope: &TenantScope) -> (listed: Vec<Project>)
        requires
            self@.wf(),
        ensures
            is_listing(self@.projects, *scope, project_views(listed@)),
    {
        let ghost ps = self@.projects;
        let mut out: Vec<Project> = Vec::new();
        let mut i: usize = 0;
        while i < self.projects.len()
            invariant
                i <= self.projects.len(),
                ps == project_views(self.projects@),
                project_ids_unique(ps),
                strictly_listed(project_views(out@)),
                forall|q: ProjectV|
                    project_views(out@).contains(q) <==> (exists|k: int|
                        0 <= k < i && #[trigger] ps[k] == q && visible(*scope, q)),
                forall|q: Project| #[trigger] out@.contains(q) ==> exists|k: int| 0 <= k < i && ps[k] == q@,
            decreases self.projects.len() - i,
        {
            let p = &self.projects[i];
            if is_visible(scope, p) {
                let ghost before = out@;
                proof {
                    assert forall|k: int| 0 <= k < out@.len() implies (#[trigger] out@[k]).id != p.id by {
                        assert(out@.contains(out@[k]));
                        let m = choose|m: int| 0 <= m < i && ps[m] == out@[k]@;
                        assert(ps[i as int].id == p.id);
                        if out@[k].id == p.id {
                            assert(ps[m].id == ps[i as int].id);
                        }
                    }
                }
                insert_listed(&mut out, p.copy());
                proof {
                    assert forall|q: Project| #[trigger] out@.contains(q) implies exists|k: int|
                        0 <= k < i + 1 && ps[k] == q@ by {
                        if before.contains(q) {
                        } else {
                            assert(ps[i as int] == q@);
                        }
                    }
                    assert forall|q: ProjectV| project_views(out@).contains(q) <==> (exists|k: int|
                        0 <= k < i + 1 && #[trigger] ps[k] == q && visible(*scope, q)) by {
                        if exists|k: int| 0 <= k < i + 1 && #[trigger] ps[k] == q && visible(*scope, q) {
                            let k = choose|k: int| 0 <= k < i + 1 && #[trigger] ps[k] == q && visible(*scope, q);
                            if k < i {
                                assert(project_views(before).contains(q));
                            }
                        }
                        if project_views(out@).contains(q) {
                            if project_views(before).contains(q) {
                            } else {
                                assert(ps[i as int] == q);
                            }
                        }
                    }
                }
            } else {
                proof {
                    assert forall|q: ProjectV| project_views(out@).contains(q) <==> (exists|k: int|
                        0 <= k < i + 1 && #[trigger] ps[k] == q && visible(*scope, q)) by {
                        if exists|k: int| 0 <= k < i + 1 && #[trigger] ps[k] == q && visible(*scope, q) {
                            let k = choose|k: int| 0 <= k < i + 1 && #[trigger] ps[k] == q && visible(*scope, q);
                            if k == i {
                                assert(false);
                            }
                        }
                    }
                }
            }
            i += 1;
        }
        proof {
            assert forall|q: ProjectV| project_views(out@).contains(q) <==> (ps.contains(q) && visible(*scope, q)) by {
                if ps.contains(q) && visible(*scope, q) {
                    let k = choose|k: int| 0 <= k < ps.len() && ps[k] == q;
                    assert(ps[k] == q);
                }
            }
        }
        out
    }

    /// One page of [`Self::list`], after `cursor` (`timestamp:id` of the last
    /// project seen) and at most `limit` long.
    pub fn list_page(&self, scope: &TenantScope, limit: usize, cursor: Option<&str>) -> (r: Result<
        ProjectPage,
        AppError,
    >)
        requires
            self@.wf(),
        ensures
            match page_request_rule(limit, match cursor {
                Some(c) => Some(c@),
                None => None,
            }) {
                Err(e) => result_view(r) == Err::<ProjectPage, ErrorV>(e),
                Ok(parsed) => r matches Ok(page) && is_page(
                    self@.projects,
                    *scope,
                    parsed,
                    limit as nat,
                    project_views(page.items@),
                    opt_text(page.next_cursor),
                ),
            },
    {
        if limit < 1 || limit > 100 {
            return Err(AppError::invalid_request("limit must be between 1 and 100"));
        }
        let parsed = match cursor {
            None => None,
            Some(value) => {
                if value.unicode_len() == 0 {
                    return Err(AppError::invalid_request("cursor must not be empty"));
                }
                Some(parse_cursor(value)?)
            },
        };
        let listed = self.list(scope);
        let ghost lv = project_views(listed@);
        let mut items: Vec<Project> = Vec::new();
        let mut i: usize = 0;
        while i < listed.len()
            invariant
                i <= listed.len(),
                lv == project_views(listed@),
                project_views(items@) == past_cursor(lv.take(i as int), parsed),
            decreases listed.len() - i,
        {
            let p = &listed[i];
            let keep = match parsed {
                Some((t, u)) => {
                    let m = millis(p.created_at);
                    m > t || (m == t && p.id.0 > u)
                },
                None => true,
            };
            proof {
                assert(lv.take(i + 1).drop_last() =~= lv.take(i as int));
                assert(lv.take(i + 1).last() == p@);
            }
            if keep {
                let ghost before = items@;
                items.push(p.copy());
                assert(project_views(items@) =~= project_views(before).push(p@));
            }
            i += 1;
        }
        assert(lv.take(listed.len() as int) =~= lv);
        let ghost after = project_views(items@);
        let has_more = items.len() > limit;
        let mut page: Vec<Project> = Vec::new();
        let mut k: usize = 0;
        let end = if has_more {
            limit
        } else {
            items.len()
        };
        while k < end
            invariant
                k <= end,
                end <= items.len(),
                after == project_views(items@),
                project_views(page@) == after.take(k as int),
            decreases end - k,
        {
            let ghost before = page@;
            page.push(items[k].copy());
            assert(project_views(page@) =~= project_views(before).push(after[k as int]));
            assert(after.take(k + 1) =~= after.take(k as int).push(after[k as int]));
            k += 1;
        }
        let next_cursor = if has_more {
            let text = format_cursor(&page[limit - 1]);
            assert(page@[limit - 1]@ == project_views(page@)[limit - 1]);
            assert(text@ == cursor_text(after[limit - 1]));
            Some(text)
        } else {
            None
        };
        proof {
            if !has_more {
                assert(after.take(after.len() as int) =~= after);
            }
            let pr = page_request_rule(limit, match cursor {
                Some(c) => Some(c@),
                None => None,
            });
            assert(pr == Ok::<Option<(i64, u128)>, ErrorV>(parsed));
            assert(after == past_cursor(lv, parsed));
            assert(is_listing(self@.projects, *scope, lv));
            assert((project_views(page@), opt_text(next_cursor)) == page_of(lv, parsed, limit as nat));
        }
        let result = ProjectPage { items: page, next_cursor };
        assert(is_page(
            self@.projects,
            *scope,
            parsed,
            limit as nat,
            project_views(result.items@),
            opt_text(result.next_cursor),
        ));
        Ok(result)
    }

    /// The project `id`, if `scope` sees it.
    pub fn get(&self, scope: &TenantScope, id: ProjectId) -> (r: Option<Project>)
        requires
            self@.wf(),
        ensures
            match r {
                Some(p) => lookup_project(self@.projects, id) == Some(p@) && visible(*scope, p@),
                None => match lookup_project(self@.projects, id) {
                    Some(p) => !visible(*scope, p),
                    None => true,
                },
            },
    {
        match self.position(id) {
            Some(i) => {
                let p = &self.projects[i];
                if is_visible(scope, p) {
                    Some(p.copy())
                } else {
                    None
                }
            },
            None => None,
        }
    }

    /// A new draft in `scope`, with a fresh id and the slug asked for or one
    /// made from the id.
    pub fn create(&mut self, scope: &TenantScope, input: ProjectCreate) -> (r: Result<Project, AppError>)
        requires
            old(self)@.wf(),
        ensures
            final(self)@.wf(),
            final(self)@.starts == old(self)@.starts,
            final(self)@.fail_next_start == old(self)@.fail_next_start,
            match r {
                Ok(p) => {
                    &&& new_project_rule(
                        p.id,
                        *scope,
                        chosen_slug(opt_text(input.slug), p.id),
                        input.display_name@,
                        input.settings@,
                        p.created_at,
                    ) == Ok::<ProjectV, ErrorV>(p@)
                    &&& !slug_taken(old(self)@.projects, p@, p@.slug)
                    &&& final(self)@.projects == put_project(old(self)@.projects, p@)
                },
                Err(e) => final(self)@ == old(self)@ && ((exists|id: ProjectId|
                    new_project_rule(
                        id,
                        *scope,
                        chosen_slug(opt_text(input.slug), id),
                        input.display_name@,
                        input.settings@,
                        0,
                    ) == Err::<ProjectV, ErrorV>(e@)) || e@ == err(ErrorCode::Conflict, slug_conflict_message())),
            },
    {
        let id = ProjectId::new(new_uuid());
        let slug = match &input.slug {
            Some(s) => s.clone(),
            None => {
                let text = uuid_to_string(id.0);
                let prefix = take_chars(text.as_str(), 8);
                String::from_str("project-").concat(prefix.as_str())
            },
        };
        proof {
            reveal_strlit("project-");
        }
        let ghost slug_view = slug@;
        assert(slug_view == chosen_slug(opt_text(input.slug), id));
        let project = match Project::new(id, scope, slug, input.display_name, input.settings) {
            Ok(p) => p,
            Err(e) => {
                assert(new_project_rule(
                    id,
                    *scope,
                    chosen_slug(opt_text(input.slug), id),
                    input.display_name@,
                    input.settings@,
                    0,
                ) == Err::<ProjectV, ErrorV>(e@));
                return Err(e);
            },
        };
        let ghost pv = project@;
        match self.insert(project.copy()) {
            Ok(()) => Ok(project),
            Err(e) => Err(e),
        }
    }

    /// Applies `patch` to project `id` if its revision is still
    /// `expected_revision`, and bumps the revision by one.
    pub fn update(&mut self, scope: &TenantScope, id: ProjectId, expected_revision: i64, patch: ProjectPatch) -> (r:
        Result<UpdateProject, AppError>)
        requires
            old(self)@.wf(),
            update_rule(old(self)@, *scope, id, expected_revision, patch@) is Ok ==> expected_revision < i64::MAX,
        ensures
            final(self)@.wf(),
            final(self)@.starts == old(self)@.starts,
            final(self)@.fail_next_start == old(self)@.fail_next_start,
            match update_rule(old(self)@, *scope, id, expected_revision, patch@) {
                Err(e) => result_view(r) == Err::<UpdateProject, ErrorV>(e) && final(self)@ == old(self)@,
                Ok(patched) => r matches Ok(u) && u.previous_revision == expected_revision && u.project@ == (
                ProjectV { revision: (expected_revision + 1) as i64, updated_at: u.project.updated_at, ..patched })
                    && final(self)@.projects == old(self)@.projects.update(
                    project_index(old(self)@.projects, id),
                    u.project@,
                ),
            },
    {
        let i = match self.position(id) {
            Some(i) => i,
            None => {
                return Err(AppError::not_found("project not found"));
            },
        };
        if !is_visible(scope, &self.projects[i]) {
            return Err(AppError::not_found("project not found"));
        }
        let current_revision = self.projects[i].revision;
        if current_revision != expected_revision {
            return Err(revision_conflict_error(expected_revision, current_revision));
        }
        if let Some(slug) = &patch.slug {
            let probe = Project { operator_id: scope.operator_id, tenant_id: scope.tenant_id, ..self.projects[i].copy() };
            if self.slug_in_use(&probe, slug.as_str()) {
                return Err(AppError::conflict("a project with this slug already exists in the tenant"));
            }
        }
        let mut updated = self.projects[i].copy();
        let applied = patch.apply_to(&mut updated);
        if let Err(e) = applied {
            return Err(e);
        }
        updated.revision = updated.revision + 1;
        updated.updated_at = utc_now_micros();
        let ghost ps = self@.projects;
        let result = updated.copy();
        self.projects.set(i, updated);
        assert(self@.projects =~= ps.update(i as int, result@));
        assert(self@.starts =~= old(self)@.starts);
        proof {
            assert forall|a: int, b: int|
                0 <= a < self@.projects.len() && 0 <= b < self@.projects.len() && #[trigger] self@.projects[a].id
                    == #[trigger] self@.projects[b].id implies a == b by {
                assert(ps[a].id == self@.projects[a].id);
                assert(ps[b].id == self@.projects[b].id);
            }
        }
        Ok(UpdateProject { project: result, previous_revision: current_revision })
    }

    /// The checks a start request passes before the clock is read, in
    /// order; a replay answers with the stored acceptance.
    fn decide_start(
        &self,
        scope: &TenantScope,
        id: ProjectId,
        command: &ProjectStartCommand,
        computed_settings_hash: &str,
    ) -> (r: Result<StartDecision, AppError>)
        requires
            self@.wf(),
        ensures
            match start_step(self@, *scope, id, *command, computed_settings_hash@) {
                StartStep::Rejected(e) => result_view(r) == Err::<StartDecision, ErrorV>(e),
                StartStep::Replayed(a) => r matches Ok(StartDecision::Replay(x)) && x == a,
                StartStep::Fresh(p, settings) => r matches Ok(StartDecision::Proceed(i, s)) && i < self@.projects.len()
                    && i == project_index(self@.projects, id) && self@.projects[i as int] == p && s@ == settings,
            },
    {
        let i = match self.position(id) {
            Some(i) => i,
            None => {
                return Err(AppError::not_found("project not found"));
            },
        };
        if !is_visible(scope, &self.projects[i]) {
            return Err(AppError::not_found("project not found"));
        }
        match self.start_position(id) {
            Some(k) => {
                let record = &self.starts[k];
                if str_eq(record.idempotency_key_hash.as_str(), command.idempotency_key_hash.as_str()) {
                    if str_eq(record.request_hash.as_str(), command.request_hash.as_str()) {
                        return Ok(StartDecision::Replay(record.view.acceptance.copy()));
                    }
                    return Err(
                        AppError::conflict("Idempotency-Key was already used with a different project start request"),
                    );
                }
                return Err(AppError::conflict("project has already been started"));
            },
            None => {},
        }
        let current = &self.projects[i];
        if current.status != ProjectStatus::Draft {
            return Err(AppError::conflict("project has already been started"));
        }
        if current.revision != command.expected_revision {
            return Err(revision_conflict_error(command.expected_revision, current.revision));
        }
        let settings = current.settings.copy().validate_start()?;
        let request_hash = start_request_hash(id, command.expected_revision, computed_settings_hash);
        if !str_eq(computed_settings_hash, command.settings_hash.as_str()) || !str_eq(
            request_hash.as_str(),
            command.request_hash.as_str(),
        ) {
            return Err(AppError::conflict("project settings changed while the start request was being prepared"));
        }
        Ok(StartDecision::Proceed(i, settings))
    }

    /// Writes the started project and its record.
    fn commit_start(&mut self, i: usize, updated: Project, record: StartRecord)
        requires
            old(self)@.wf(),
            i < old(self)@.projects.len(),
            updated.id == old(self)@.projects[i as int].id,
            record.project_id == updated.id,
            !has_start(old(self)@.starts, record.project_id),
        ensures
            final(self)@.wf(),
            final(self)@.projects == old(self)@.projects.update(i as int, updated@),
            final(self)@.starts == old(self)@.starts.push(record@),
            final(self)@.fail_next_start == old(self)@.fail_next_start,
    {
        let ghost ps = self@.projects;
        let ghost rs = self@.starts;
        let ghost uv = updated@;
        let ghost recv = record@;
        self.projects.set(i, updated);
        self.starts.push(record);
        proof {
            assert(self@.projects =~= ps.update(i as int, uv));
            assert(self@.starts =~= rs.push(recv));
            assert forall|a: int, b: int|
                0 <= a < self@.projects.len() && 0 <= b < self@.projects.len() && #[trigger] self@.projects[a].id
                    == #[trigger] self@.projects[b].id implies a == b by {
                assert(ps[a].id == self@.projects[a].id);
                assert(ps[b].id == self@.projects[b].id);
            }
            assert forall|a: int, b: int|
                0 <= a < self@.starts.len() && 0 <= b < self@.starts.len() && #[trigger] self@.starts[a].project_id
                    == #[trigger] self@.starts[b].project_id implies a == b by {
                if a < rs.len() && b == rs.len() {
                    assert(rs[a].project_id == recv.project_id);
                }
                if b < rs.len() && a == rs.len() {
                    assert(rs[b].project_id == recv.project_id);
                }
            }
        }
    }

    /// The start request at instant `now`: replays a stored acceptance,
    /// rejects what conflicts, and otherwise freezes the report window and
    /// commits the start in one step.
    pub fn start_at(
        &mut self,
        scope: &TenantScope,
        id: ProjectId,
        command: ProjectStartCommand,
        computed_settings_hash: &str,
        now: i64,
    ) -> (r: Result<ProjectStartAcceptance, AppError>)
        requires
            old(self)@.wf(),
            start_step(old(self)@, *scope, id, command, computed_settings_hash@) is Fresh ==> command.expected_revision
                < i64::MAX,
        ensures
            final(self)@.wf(),
            start_outcome(
                old(self)@,
                final(self)@,
                *scope,
                id,
                command,
                computed_settings_hash@,
                now as int,
                result_view(r),
            ),
    {
        let (i, settings) = match self.decide_start(scope, id, &command, computed_settings_hash)? {
            StartDecision::Replay(acceptance) => {
                return Ok(acceptance);
            },
            StartDecision::Proceed(i, settings) => (i, settings),
        };
        if now < -8334596131200000000 || now > 8210261692799999999 {
            return Err(AppError::new(ErrorCode::Internal, "current time is outside the supported calendar range"));
        }
        let (window_start, window_end, cutoff) = previous_calendar_week_window(
            settings.report_timezone.as_str(),
            &settings.report_schedule,
            now,
        )?;
        let acceptance = fresh_start_acceptance(command.operation_id);
        if self.fail_next_start {
            self.fail_next_start = false;
            assert(self@.projects =~= old(self)@.projects);
            assert(self@.starts =~= old(self)@.starts);
            return Err(AppError::new(ErrorCode::DependencyUnavailable, "injected project start failure"));
        }
        let view = ProjectStartView {
            project_id: id,
            acceptance: acceptance.copy(),
            requested_revision: command.expected_revision,
            settings_hash: command.settings_hash,
            report_window_start_at: window_start,
            report_window_end_at: window_end,
            cutoff_at: cutoff,
        };
        let mut updated = self.projects[i].copy();
        updated.status = ProjectStatus::Active;
        updated.revision = updated.revision + 1;
        updated.updated_at = now;
        updated.current_config_revision_id = Some(acceptance.config_revision_id);
        updated.current_cycle_id = Some(acceptance.cycle_id);
        updated.start_operation_id = Some(command.operation_id);
        let record = StartRecord {
            project_id: id,
            idempotency_key_hash: command.idempotency_key_hash,
            request_hash: command.request_hash,
            view,
        };
        self.commit_start(i, updated, record);
        Ok(acceptance)
    }

    /// [`Self::start_at`] at the current time.
    pub fn start(&mut self, scope: &TenantScope, id: ProjectId, command: ProjectStartCommand, computed_settings_hash: &str) -> (r: Result<
        ProjectStartAcceptance,
        AppError,
    >)
        requires
            old(self)@.wf(),
            start_step(old(self)@, *scope, id, command, computed_settings_hash@) is Fresh ==> command.expected_revision
                < i64::MAX,
        ensures
            final(self)@.wf(),
            starts_kept(old(self)@, final(self)@),
            exists|now: int|
                start_outcome(
                    old(self)@,
                    final(self)@,
                    *scope,
                    id,
                    command,
                    computed_settings_hash@,
                    now,
                    result_view(r),
                ),
    {
        let now = utc_now_micros();
        let r = self.start_at(scope, id, command, computed_settings_hash, now);
        assert(start_outcome(
            old(self)@,
            self@,
            *scope,
            id,
            command,
            computed_settings_hash@,
            now as int,
            result_view(r),
        ));
        proof {
            lemma_start_keeps_starts(old(self)@, self@, *scope, id, command, computed_settings_hash@, now as int, result_view(r));
        }
        r
    }

    /// The frozen start of project `id`, if `scope` sees the project and it
    /// has been started.
    pub fn get_start(&self, scope: &TenantScope, id: ProjectId) -> (r: Option<ProjectStartView>)
        requires
            self@.wf(),
        ensures
            r == (match lookup_project(self@.projects, id) {
                Some(p) => if visible(*scope, p) {
                    match lookup_start(self@.starts, id) {
                        Some(rec) => Some(rec.view),
                        None => None,
                    }
                } else {
                    None
                },
                None => None,
            }),
    {
        match self.position(id) {
            Some(i) => {
                if !is_visible(scope, &self.projects[i]) {
                    return None;
                }
                match self.start_position(id) {
                    Some(k) => Some(self.starts[k].view.copy()),
                    None => None,
                }
            },
            None => None,
        }
    }
}

/// A start decided before the clock is read.
enum StartDecision {
    Replay(ProjectStartAcceptance),
    Proceed(usize, crate::project::ProjectSettings),
}

/// The acceptance of a fresh start, with new cycle, revision and manifest ids.
fn fresh_start_acceptance(operation_id: u128) -> (a: ProjectStartAcceptance)
    ensures
        a.operation_id == operation_id,
        a.document_manifest.revision == 1,
        a.document_manifest.state@ == "awaiting_knowledge"@,
        !a.document_manifest.sealed,
        a.document_manifest.expected_count is None,
        a.distribution_manifest.revision == 1,
        a.distribution_manifest.state@ == "awaiting_documents"@,
        !a.distribution_manifest.sealed,
        a.distribution_manifest.expected_count is None,
        a.status == StartAcceptanceStatus::Accepted,
        a.operation_url@ == "/api/v1/operations/"@ + uuid_text(operation_id),
{
    let config_revision_id = new_uuid();
    let cycle_id = new_uuid();
    let document_manifest_id = new_uuid();
    let distribution_manifest_id = new_uuid();
    let operation_text = uuid_to_string(operation_id);
    proof {
        reveal_strlit("awaiting_knowledge");
        reveal_strlit("awaiting_documents");
        reveal_strlit("/api/v1/operations/");
    }
    ProjectStartAcceptance {
        operation_id,
        cycle_id,
        config_revision_id,
        document_manifest: DocumentManifestAcceptance {
            manifest_id: document_manifest_id,
            revision: 1,
            state: String::from_str("awaiting_knowledge"),
            sealed: false,
            expected_count: None,
        },
        distribution_manifest: DistributionManifestAcceptance {
            manifest_id: distribution_manifest_id,
            revision: 1,
            state: String::from_str("awaiting_documents"),
            sealed: false,
            expected_count: None,
        },
        status: StartAcceptanceStatus::Accepted,
        operation_url: String::from_str("/api/v1/operations/").concat(operation_text.as_str()),
    }
}


// ---------------------------------------------------------------------------
// Laws of the start boundary.
// ---------------------------------------------------------------------------

/// A project written to the store is what a lookup of its id gives back,
/// and the tenant that wrote it sees it.
pub proof fn lemma_created_project_found(s: ProjectStoreV, projects: Seq<ProjectV>, scope: TenantScope, p: ProjectV)
    requires
        s.wf(),
        scope.project_id is None,
        p.operator_id == scope.operator_id,
        p.tenant_id == scope.tenant_id,
        projects == put_project(s.projects, p),
    ensures
        lookup_project(projects, p.id) == Some(p),
        visible(scope, p),
{
    if has_project(s.projects, p.id) {
        let i = project_index(s.projects, p.id);
        assert(projects[i] == p);
        let j = project_index(projects, p.id);
        assert(projects[j].id == p.id);
        assert(s.projects[j].id == s.projects[i].id);
    } else {
        let last = s.projects.len() as int;
        assert(projects[last] == p);
        let j = project_index(projects, p.id);
        assert(projects[j].id == p.id);
        if j < last {
            assert(s.projects[j].id == p.id);
        }
    }
}

/// Tenant isolation: no project is visible from two tenants, so what one
/// tenant lists or reads is never another tenant's.
pub proof fn lemma_tenants_see_disjoint_projects(p: ProjectV, a: TenantScope, b: TenantScope)
    requires
        a.operator_id != b.operator_id || a.tenant_id != b.tenant_id,
    ensures
        !(visible(a, p) && visible(b, p)),
{
}

/// Optimistic concurrency: an update consumes the revision it was made
/// against, so the same revision sent again is refused with a conflict that
/// names the new one.
pub proof fn lemma_update_consumes_revision(
    old: ProjectStoreV,
    projects: Seq<ProjectV>,
    scope: TenantScope,
    id: ProjectId,
    expected_revision: i64,
    patch: crate::project::PatchV,
    updated: ProjectV,
    again: crate::project::PatchV,
)
    requires
        old.wf(),
        expected_revision < i64::MAX,
        update_rule(old, scope, id, expected_revision, patch) matches Ok(patched) && updated == (ProjectV {
            revision: (expected_revision + 1) as i64,
            updated_at: updated.updated_at,
            ..patched
        }),
        projects == old.projects.update(project_index(old.projects, id), updated),
    ensures
        update_rule(ProjectStoreV { projects, ..old }, scope, id, expected_revision, again) == Err::<ProjectV, ErrorV>(
            revision_conflict(expected_revision, (expected_revision + 1) as i64),
        ),
{
    let idx = project_index(old.projects, id);
    let p = old.projects[idx];
    assert(p.id == id);
    assert(updated.id == id && updated.operator_id == p.operator_id && updated.tenant_id == p.tenant_id);
    assert(projects[idx].id == id);
    assert(has_project(projects, id));
    let j = project_index(projects, id);
    assert(projects[j].id == id);
    assert(old.projects[j].id == projects[j].id);
    assert(j == idx);
    assert(lookup_project(projects, id) == Some(updated));
    assert(project_scope_of(updated) == project_scope_of(p));
}

/// An update whose new slug is already the slug of another project of the
/// same operator and tenant is refused as a conflict, before anything is
/// written, so slugs stay unique within a tenant.
pub proof fn lemma_update_refuses_taken_slug(
    s: ProjectStoreV,
    scope: TenantScope,
    id: ProjectId,
    expected_revision: i64,
    patch: crate::project::PatchV,
    other: ProjectV,
)
    requires
        s.wf(),
        s.projects.contains(other),
        other.id != id,
        other.operator_id == scope.operator_id,
        other.tenant_id == scope.tenant_id,
        patch.slug == Some(other.slug),
        lookup_project(s.projects, id) matches Some(p) && visible(scope, p) && p.revision == expected_revision,
    ensures
        update_rule(s, scope, id, expected_revision, patch) == Err::<ProjectV, ErrorV>(
            err(ErrorCode::Conflict, "a project with this slug already exists in the tenant"@),
        ),
{
    let i = choose|i: int| 0 <= i < s.projects.len() && s.projects[i] == other;
    assert(s.projects[i].operator_id == scope.operator_id);
}

/// What stays of an ordered listing past a cursor is still ordered.
proof fn lemma_past_cursor_sub(s: Seq<ProjectV>, cursor: Option<(i64, u128)>)
    requires
        strictly_listed(s),
    ensures
        strictly_listed(past_cursor(s, cursor)),
        forall|p: ProjectV| past_cursor(s, cursor).contains(p) ==> s.contains(p),
    decreases s.len(),
{
    if s.len() > 0 {
        let t = s.drop_last();
        assert(strictly_listed(t)) by {
            assert forall|i: int, j: int| 0 <= i < j < t.len() implies listed_before(#[trigger] t[i], #[trigger] t[j]) by {
                assert(t[i] == s[i] && t[j] == s[j]);
            }
        }
        lemma_past_cursor_sub(t, cursor);
        let rest = past_cursor(t, cursor);
        let x = s.last();
        assert forall|p: ProjectV| rest.contains(p) implies listed_before(p, x) by {
            assert(t.contains(p));
            let k = choose|k: int| 0 <= k < t.len() && t[k] == p;
            assert(s[k] == p);
            assert(listed_before(s[k], s[s.len() - 1]));
        }
        let r2 = rest.push(x);
        assert forall|i: int, j: int| 0 <= i < j < r2.len() implies listed_before(#[trigger] r2[i], #[trigger] r2[j]) by {
            assert(r2[i] == rest[i]);
            assert(rest.contains(rest[i]));
            if j < rest.len() {
                assert(r2[j] == rest[j]);
            }
        }
        assert forall|p: ProjectV| past_cursor(s, cursor).contains(p) implies s.contains(p) by {
            if rest.contains(p) {
                assert(t.contains(p));
                let k = choose|k: int| 0 <= k < t.len() && t[k] == p;
                assert(s[k] == p);
            } else {
                let k = choose|k: int| 0 <= k < past_cursor(s, cursor).len() && past_cursor(s, cursor)[k] == p;
                if k < rest.len() {
                    assert(r2[k] == rest[k]);
                }
                assert(s[s.len() - 1] == p);
            }
        }
    }
}

/// Whether `p` is listed after the cursor `(t, u)`: created at a later
/// millisecond, or in the same millisecond with a larger id.  Every project
/// is after no cursor at all.
pub open spec fn listed_after(p: ProjectV, cursor: Option<(i64, u128)>) -> bool {
    match cursor {
        None => true,
        Some((t, u)) => p.created_at as int / 1000 > t || (p.created_at as int / 1000 == t && p.id.0 > u),
    }
}

/// What stays of `s` past a cursor is exactly its entries after the cursor.
proof fn lemma_past_cursor_members(s: Seq<ProjectV>, c: Option<(i64, u128)>)
    ensures
        forall|p: ProjectV| past_cursor(s, c).contains(p) <==> s.contains(p) && listed_after(p, c),
    decreases s.len(),
{
    if s.len() > 0 {
        lemma_past_cursor_members(s.drop_last(), c);
        let rest = past_cursor(s.drop_last(), c);
        assert forall|p: ProjectV| past_cursor(s, c).contains(p) <==> s.contains(p) && listed_after(p, c) by {
            if s.contains(p) && !s.drop_last().contains(p) {
                let k = choose|k: int| 0 <= k < s.len() && s[k] == p;
                if k < s.len() - 1 {
                    assert(s.drop_last()[k] == p);
                }
            }
            if s.drop_last().contains(p) {
                let k = choose|k: int| 0 <= k < s.drop_last().len() && s.drop_last()[k] == p;
                assert(s[k] == p);
            }
            let last_in = match c {
                None => true,
                Some(cc) => after_cursor(s.last(), cc),
            };
            if last_in {
                assert(rest.push(s.last()).last() == s.last());
                if rest.push(s.last()).contains(p) && p != s.last() {
                    let k = choose|k: int| 0 <= k < rest.push(s.last()).len() && rest.push(s.last())[k] == p;
                    assert(rest[k] == p);
                }
                if rest.contains(p) {
                    let k = choose|k: int| 0 <= k < rest.len() && rest[k] == p;
                    assert(rest.push(s.last())[k] == p);
                }
            }
        }
    }
}

/// A page is the next slice of the listing after its cursor.  It holds at
/// most `limit` visible projects, all listed after the cursor (so the
/// project a returned cursor names is never on the page that cursor asks
/// for), in listing order (creation instant, then id), and it skips none:
/// every visible project after the cursor that is not on the page is listed
/// after all of it.  A next cursor is given exactly when such a project
/// remains, the page is then full, and the cursor names the page's last
/// project as its creation millisecond, a colon and its id.
pub proof fn lemma_page_is_next_slice(
    ps: Seq<ProjectV>,
    scope: TenantScope,
    cursor: Option<(i64, u128)>,
    limit: nat,
    items: Seq<ProjectV>,
    next: Option<Seq<char>>,
)
    requires
        limit >= 1,
        is_page(ps, scope, cursor, limit, items, next),
    ensures
        items.len() <= limit,
        forall|i: int| 0 <= i < items.len() ==> ps.contains(#[trigger] items[i]) && visible(scope, items[i]) && listed_after(
            items[i],
            cursor,
        ),
        forall|i: int, j: int| 0 <= i < j < items.len() ==> (#[trigger] items[i]).created_at < (#[trigger] items[j]).created_at
            || (items[i].created_at == items[j].created_at && items[i].id.0 < items[j].id.0),
        forall|p: ProjectV, i: int|
            #![trigger items.contains(p), items[i]]
            ps.contains(p) && visible(scope, p) && listed_after(p, cursor) && !items.contains(p) && 0 <= i < items.len()
                ==> items[i].created_at < p.created_at || (items[i].created_at == p.created_at && items[i].id.0
                < p.id.0),
        next is None ==> forall|p: ProjectV|
            ps.contains(p) && visible(scope, p) && listed_after(p, cursor) ==> #[trigger] items.contains(p),
        next matches Some(c) ==> items.len() == limit && c == int_text(items.last().created_at as int / 1000) + ":"@
            + uuid_text(items.last().id.0) && exists|p: ProjectV|
            ps.contains(p) && visible(scope, p) && listed_after(p, cursor) && !(#[trigger] items.contains(p)),
{
    let listed = choose|listed: Seq<ProjectV>| is_listing(ps, scope, listed) && page_of(listed, cursor, limit) == (items, next);
    let after = past_cursor(listed, cursor);
    lemma_past_cursor_members(listed, cursor);
    lemma_past_cursor_sub(listed, cursor);
    assert(items.len() <= after.len());
    assert(forall|i: int| 0 <= i < items.len() ==> items[i] == after[i]);
    assert forall|i: int| 0 <= i < items.len() implies ps.contains(#[trigger] items[i]) && visible(scope, items[i]) && listed_after(
        items[i],
        cursor,
    ) by {
        assert(after.contains(after[i]));
    }
    assert forall|i: int, j: int| 0 <= i < j < items.len() implies (#[trigger] items[i]).created_at < (#[trigger] items[j]).created_at
        || (items[i].created_at == items[j].created_at && items[i].id.0 < items[j].id.0) by {
        assert(listed_before(after[i], after[j]));
    }
    assert forall|p: ProjectV, i: int|
        #![trigger items.contains(p), items[i]]
        ps.contains(p) && visible(scope, p) && listed_after(p, cursor) && !items.contains(p) && 0 <= i < items.len()
            implies items[i].created_at < p.created_at || (items[i].created_at == p.created_at && items[i].id.0
            < p.id.0) by {
        assert(listed.contains(p));
        assert(after.contains(p));
        let j = choose|j: int| 0 <= j < after.len() && after[j] == p;
        if j < items.len() {
            assert(items[j] == p);
        }
        assert(listed_before(after[i], after[j]));
    }
    if next is None {
        assert forall|p: ProjectV| ps.contains(p) && visible(scope, p) && listed_after(p, cursor) implies #[trigger] items.contains(
            p,
        ) by {
            assert(listed.contains(p));
            assert(after.contains(p));
            assert(items == after);
        }
    } else {
        assert(after.len() > limit);
        assert(items.last() == after[limit - 1]);
        let p = after[limit as int];
        assert(after.contains(p));
        if items.contains(p) {
            let i = choose|i: int| 0 <= i < items.len() && items[i] == p;
            assert(listed_before(after[i], after[limit as int]));
        }
    }
}

/// The slug check looks only at the projects of the same operator and
/// tenant: an update of a visible project at its current revision whose new
/// slug no other project of that tenant uses is never refused as a
/// conflict; it fails, if at all, only on an invalid patch.
pub proof fn lemma_update_allows_free_slug(
    s: ProjectStoreV,
    scope: TenantScope,
    id: ProjectId,
    expected_revision: i64,
    patch: crate::project::PatchV,
)
    requires
        s.wf(),
        lookup_project(s.projects, id) matches Some(p) && visible(scope, p) && p.revision == expected_revision,
        patch.slug matches Some(slug) && forall|q: ProjectV|
            s.projects.contains(q) && q.id != id && q.operator_id == scope.operator_id && q.tenant_id == scope.tenant_id
                ==> q.slug != slug,
    ensures
        update_rule(s, scope, id, expected_revision, patch) matches Err(e) ==> e.code == ErrorCode::InvalidRequest,
{
    let p = lookup_project(s.projects, id)->0;
    let slug = patch.slug->0;
    if slug_taken(s.projects, ProjectV { operator_id: scope.operator_id, tenant_id: scope.tenant_id, ..p }, slug) {
        let i = choose|i: int|
            0 <= i < s.projects.len() && #[trigger] s.projects[i].operator_id == scope.operator_id && s.projects[i].tenant_id
                == scope.tenant_id && s.projects[i].slug == slug && s.projects[i].id != p.id;
        assert(s.projects.contains(s.projects[i]));
    }
    crate::project::lemma_patch_rule_invalid_only(patch, p);
}

/// Every start record of `old` stays, at its place, in `new`.
pub open spec fn starts_kept(old: ProjectStoreV, new: ProjectStoreV) -> bool {
    &&& old.starts.len() <= new.starts.len()
    &&& forall|i: int| 0 <= i < old.starts.len() ==> #[trigger] new.starts[i] == old.starts[i]
}

/// A start request removes or changes no start record.
pub proof fn lemma_start_keeps_starts(
    old: ProjectStoreV,
    new: ProjectStoreV,
    scope: TenantScope,
    id: ProjectId,
    cmd: ProjectStartCommand,
    computed_hash: Seq<char>,
    now: int,
    r: Result<ProjectStartAcceptance, ErrorV>,
)
    requires
        start_outcome(old, new, scope, id, cmd, computed_hash, now, r),
    ensures
        starts_kept(old, new),
{
}

/// Once a start of project `id` is accepted, every later start of it in the
/// same scope, after any calls that keep the start records, changes nothing:
/// the same idempotency key and request get the stored acceptance back, the
/// same key with another request is refused as a reused key, and another key
/// is refused because the project has already been started.
pub proof fn lemma_start_replay_later(
    s0: ProjectStoreV,
    s1: ProjectStoreV,
    s2: ProjectStoreV,
    s3: ProjectStoreV,
    scope: TenantScope,
    id: ProjectId,
    first: ProjectStartCommand,
    first_hash: Seq<char>,
    now1: int,
    a: ProjectStartAcceptance,
    later: ProjectStartCommand,
    later_hash: Seq<char>,
    now2: int,
    r: Result<ProjectStartAcceptance, ErrorV>,
)
    requires
        s0.wf(),
        start_outcome(s0, s1, scope, id, first, first_hash, now1, Ok::<ProjectStartAcceptance, ErrorV>(a)),
        starts_kept(s1, s2),
        s2.wf(),
        lookup_project(s2.projects, id) matches Some(p) && visible(scope, p),
        start_outcome(s2, s3, scope, id, later, later_hash, now2, r),
    ensures
        s3 == s2,
        later.idempotency_key_hash@ == first.idempotency_key_hash@ && later.request_hash@ == first.request_hash@ ==> r
            == Ok::<ProjectStartAcceptance, ErrorV>(a),
        later.idempotency_key_hash@ == first.idempotency_key_hash@ && later.request_hash@ != first.request_hash@ ==> r
            == Err::<ProjectStartAcceptance, ErrorV>(key_reused()),
        later.idempotency_key_hash@ != first.idempotency_key_hash@ ==> r == Err::<ProjectStartAcceptance, ErrorV>(
            already_started(),
        ),
{
    let k: int = match start_step(s0, scope, id, first, first_hash) {
        StartStep::Replayed(_) => {
            let k = choose|i: int| 0 <= i < s0.starts.len() && #[trigger] s0.starts[i].project_id == id;
            k
        },
        _ => s0.starts.len() as int,
    };
    let rec = s1.starts[k];
    assert(rec.project_id == id && rec.idempotency_key_hash == first.idempotency_key_hash@ && rec.request_hash
        == first.request_hash@ && rec.view.acceptance == a);
    assert(s2.starts[k] == rec);
    assert(has_start(s2.starts, id));
    let j = choose|i: int| 0 <= i < s2.starts.len() && #[trigger] s2.starts[i].project_id == id;
    assert(s2.starts[j].project_id == s2.starts[k].project_id);
    assert(lookup_start(s2.starts, id) == Some(rec));
}

/// A start either commits completely or changes neither projects nor start
/// records: a failed start leaves no partial state behind.
pub proof fn lemma_failed_start_changes_nothing(
    old: ProjectStoreV,
    new: ProjectStoreV,
    scope: TenantScope,
    id: ProjectId,
    cmd: ProjectStartCommand,
    computed_hash: Seq<char>,
    now: int,
    e: ErrorV,
)
    requires
        start_outcome(old, new, scope, id, cmd, computed_hash, now, Err::<ProjectStartAcceptance, ErrorV>(e)),
    ensures
        new.projects == old.projects,
        new.starts == old.starts,
{
}

/// Repeating an accepted start with the same idempotency key and request
/// gives back the same acceptance and changes nothing, at any later time.
pub proof fn lemma_start_replay(
    s1: ProjectStoreV,
    s2: ProjectStoreV,
    s3: ProjectStoreV,
    scope: TenantScope,
    id: ProjectId,
    cmd: ProjectStartCommand,
    computed_hash: Seq<char>,
    now1: int,
    now2: int,
    a: ProjectStartAcceptance,
    r2: Result<ProjectStartAcceptance, ErrorV>,
)
    requires
        s1.wf(),
        s2.wf(),
        start_outcome(s1, s2, scope, id, cmd, computed_hash, now1, Ok::<ProjectStartAcceptance, ErrorV>(a)),
        start_outcome(s2, s3, scope, id, cmd, computed_hash, now2, r2),
    ensures
        r2 == Ok::<ProjectStartAcceptance, ErrorV>(a),
        s3 == s2,
{
    match start_step(s1, scope, id, cmd, computed_hash) {
        StartStep::Replayed(_) => {},
        StartStep::Rejected(_) => {},
        StartStep::Fresh(p, settings) => {
            let idx = project_index(s1.projects, id);
            let started = started_project(p, a, now1);
            assert(s2.projects[idx] == started);
            assert(s2.projects[idx].id == id);
            assert(has_project(s2.projects, id));
            let j = project_index(s2.projects, id);
            assert(s2.projects[j].id == s2.projects[idx].id);
            assert(lookup_project(s2.projects, id) == Some(started));
            let last = s2.starts.len() - 1;
            assert(s2.starts[last].project_id == id);
            assert(has_start(s2.starts, id));
            let k = choose|k: int| 0 <= k < s2.starts.len() && #[trigger] s2.starts[k].project_id == id;
            assert(s2.starts[k].project_id == s2.starts[last].project_id);
            assert(lookup_start(s2.starts, id) == Some(s2.starts[last]));
        },
    }
}

fn revision_conflict_error(expected: i64, current: i64) -> (e: AppError)
    ensures
        e@ == revision_conflict(expected, current),
{
    let text = String::from_str("project revision conflict: expected ");
    let e_text = i64_to_string(expected);
    let c_text = i64_to_string(current);
    let text = text.concat(e_text.as_str()).concat(", current ").concat(c_text.as_str());
    proof {
        reveal_strlit("project revision conflict: expected ");
        reveal_strlit(", current ");
    }
    AppError::with_message(ErrorCode::Conflict, text)
}

} // verus!
