//! The report window a project start freezes: the calendar week before the
//! next report, resolved to UTC in the project's time zone.

use vstd::prelude::*;
use crate::clock::{
    LocalResolution, hh_mm_parse, is_known_timezone, local_day, max_instant, max_local_minute, min_instant, min_local_minute,
    parse_hh_mm, resolve_local_minute, tz_known, tz_local_day, tz_resolve, day_micros,
};
use crate::error::{AppError, ErrorCode, ErrorV, err};
use crate::project::{ReportSchedule, ScheduleV, weekday_index};
use crate::rules::invalid;

verus! {

/// Weekday of a day number (days since 1970-01-01, a Thursday), Monday = 0.
pub open spec fn weekday_of(day: int) -> int {
    (day + 3) % 7
}

/// The instant a local minute resolves to: the minute itself when it exists
/// (the earlier instant when it repeats), else the first later minute that
/// exists, searched for at most `budget` minutes.
pub open spec fn resolve_from(tz: Seq<char>, minute: int, budget: nat) -> Option<int>
    decreases budget,
{
    if budget == 0 {
        None
    } else {
        match tz_resolve(tz, minute) {
            LocalResolution::Single(t) => Some(t as int),
            LocalResolution::Ambiguous(t) => Some(t as int),
            LocalResolution::Gap => resolve_from(tz, minute + 1, (budget - 1) as nat),
        }
    }
}

/// A local minute resolved, searching forward through skipped local times
/// as far as the last local minute this library resolves.
pub open spec fn resolve_spec(tz: Seq<char>, minute: int) -> Option<int> {
    resolve_from(tz, minute, (max_local_minute() + 1 - minute) as nat)
}

/// The earliest and latest instants accepted as "now": sixty days inside
/// the range `chrono` represents, so that every date the window reaches is
/// representable.
pub open spec fn min_calendar_instant() -> int {
    min_instant() + 60 * day_micros()
}

pub open spec fn max_calendar_instant() -> int {
    max_instant() - 60 * day_micros()
}

pub open spec fn unresolvable() -> ErrorV {
    err(ErrorCode::Internal, "local time cannot be resolved in the report timezone"@)
}

/// The frozen report window: period start, period end and cutoff.
pub open spec fn window_spec(tz: Seq<char>, s: ScheduleV, now: int) -> Result<(int, int, int), ErrorV> {
    if !tz_known(tz) {
        Err(invalid("report_timezone must be a valid IANA timezone"@))
    } else {
        match hh_mm_parse(s.report_local_time) {
            None => Err(invalid("report_schedule.report_local_time must be HH:MM"@)),
            Some((rh, rm)) => match hh_mm_parse(s.cutoff_local_time) {
                None => Err(invalid("report_schedule.cutoff_local_time must be HH:MM"@)),
                Some((ch, cm)) => {
                    let today = tz_local_day(tz, now);
                    let delta = (7 + weekday_index(s.report_weekday) - weekday_of(today)) % 7;
                    let day0 = today + delta;
                    let report_minute = rh * 60 + rm;
                    match resolve_spec(tz, day0 * 1440 + report_minute) {
                        None => Err(unresolvable()),
                        Some(at0) => {
                            let report_day = if at0 <= now { day0 + 7 } else { day0 };
                            let report_at = if at0 <= now { resolve_spec(tz, report_day * 1440 + report_minute) } else {
                                Some(at0)
                            };
                            match report_at {
                                None => Err(unresolvable()),
                                Some(report_at) => {
                                    let monday = report_day - weekday_of(report_day);
                                    let cutoff_delta = (7 + weekday_of(report_day) - weekday_index(s.cutoff_weekday)) % 7;
                                    let cut_day0 = report_day - cutoff_delta;
                                    let cutoff_minute = ch * 60 + cm;
                                    match resolve_spec(tz, cut_day0 * 1440 + cutoff_minute) {
                                        None => Err(unresolvable()),
                                        Some(cut0) => {
                                            let cutoff = if cut0 > report_at {
                                                resolve_spec(tz, (cut_day0 - 7) * 1440 + cutoff_minute)
                                            } else {
                                                Some(cut0)
                                            };
                                            match cutoff {
                                                None => Err(unresolvable()),
                                                Some(cutoff) => match resolve_spec(tz, (monday - 7) * 1440) {
                                                    None => Err(unresolvable()),
                                                    Some(start) => match resolve_spec(tz, monday * 1440) {
                                                        None => Err(unresolvable()),
                                                        Some(end) => Ok((start, end, cutoff)),
                                                    },
                                                },
                                            }
                                        },
                                    }
                                },
                            }
                        },
                    }
                },
            },
        }
    }
}

proof fn lemma_weekday_steps(x: int, w: int)
    requires
        0 <= w < 7,
    ensures
        ((x - (x + 3) % 7) + 3) % 7 == 0,
        0 <= (x + 3) % 7 < 7,
        ((x + (7 + w - (x + 3) % 7) % 7) + 3) % 7 == w,
        0 <= (7 + w - (x + 3) % 7) % 7 < 7,
        ((x - (7 + (x + 3) % 7 - w) % 7) + 3) % 7 == w,
        0 <= (7 + (x + 3) % 7 - w) % 7 < 7,
        (x + 7 + 3) % 7 == (x + 3) % 7,
{
    assert(((x - (x + 3) % 7) + 3) % 7 == 0) by (nonlinear_arith);
    assert(0 <= (x + 3) % 7 < 7) by (nonlinear_arith);
    assert(((x + (7 + w - (x + 3) % 7) % 7) + 3) % 7 == w) by (nonlinear_arith)
        requires 0 <= w < 7;
    assert(0 <= (7 + w - (x + 3) % 7) % 7 < 7) by (nonlinear_arith);
    assert(((x - (7 + (x + 3) % 7 - w) % 7) + 3) % 7 == w) by (nonlinear_arith)
        requires 0 <= w < 7;
    assert(0 <= (7 + (x + 3) % 7 - w) % 7 < 7) by (nonlinear_arith);
    assert((x + 7 + 3) % 7 == (x + 3) % 7) by (nonlinear_arith);
}

/// `start` and `end` are the local midnights of the Monday `monday - 7`
/// and the Monday `monday` in `tz` (1970-01-01 was a Thursday); the report
/// is due at `report_at`, the scheduled time of day `report_day`, the
/// scheduled weekday of the week beginning at `monday`, within two weeks of
/// the local date of `now`: the first such day from that date on whose
/// report is after `now`, else the one a week later; and `cutoff` is the
/// scheduled cutoff time of day `cutoff_day`, the scheduled weekday: the
/// last such day up to the report day when its cutoff is not after the
/// report, else the one a week before.
pub open spec fn week_before_report(
    tz: Seq<char>,
    s: ScheduleV,
    now: int,
    start: int,
    end: int,
    cutoff: int,
    monday: int,
    report_day: int,
    cutoff_day: int,
    report_at: int,
) -> bool {
    &&& (monday + 3) % 7 == 0
    &&& Some(start) == resolve_spec(tz, (monday - 7) * 1440)
    &&& Some(end) == resolve_spec(tz, monday * 1440)
    &&& monday <= report_day < monday + 7
    &&& (report_day + 3) % 7 == weekday_index(s.report_weekday)
    &&& tz_local_day(tz, now) <= report_day <= tz_local_day(tz, now) + 13
    &&& (hh_mm_parse(s.report_local_time) matches Some((rh, rm)) && resolve_spec(tz, report_day * 1440 + rh * 60 + rm)
        == Some(report_at))
    &&& if report_day <= tz_local_day(tz, now) + 6 {
        now < report_at
    } else {
        hh_mm_parse(s.report_local_time) matches Some((rh, rm)) && resolve_spec(tz, (report_day - 7) * 1440 + rh * 60 + rm)
            matches Some(earlier) && earlier <= now
    }
    &&& (cutoff_day + 3) % 7 == weekday_index(s.cutoff_weekday)
    &&& report_day - 14 < cutoff_day <= report_day
    &&& (hh_mm_parse(s.cutoff_local_time) matches Some((ch, cm)) && resolve_spec(tz, cutoff_day * 1440 + ch * 60 + cm)
        == Some(cutoff))
    &&& if cutoff_day > report_day - 7 {
        cutoff <= report_at
    } else {
        hh_mm_parse(s.cutoff_local_time) matches Some((ch, cm)) && resolve_spec(tz, (cutoff_day + 7) * 1440 + ch * 60 + cm)
            matches Some(later) && later > report_at
    }
}

/// The frozen window is the calendar week before the report's week: its
/// start and end are the local midnights of two Mondays seven days apart in
/// the report's time zone (1970-01-01 was a Thursday), the report falls on
/// the scheduled weekday and time of the week that begins at the end, the
/// first such report from the local date of `now` on that is after `now`,
/// and the cutoff is on the scheduled weekday and time before the report,
/// as `week_before_report` spells out.
pub proof fn lemma_window_is_previous_calendar_week(
    tz: Seq<char>,
    s: ScheduleV,
    now: int,
    start: int,
    end: int,
    cutoff: int,
)
    requires
        window_spec(tz, s, now) == Ok::<(int, int, int), ErrorV>((start, end, cutoff)),
    ensures
        exists|monday: int, report_day: int, cutoff_day: int, report_at: int|
            #[trigger] week_before_report(tz, s, now, start, end, cutoff, monday, report_day, cutoff_day, report_at),
{
    let (rh, rm) = hh_mm_parse(s.report_local_time)->0;
    let (ch, cm) = hh_mm_parse(s.cutoff_local_time)->0;
    let today = tz_local_day(tz, now);
    let wi = weekday_index(s.report_weekday) as int;
    let ci = weekday_index(s.cutoff_weekday) as int;
    lemma_weekday_steps(today, wi);
    let delta = (7 + wi - weekday_of(today)) % 7;
    let day0 = today + delta;
    let report_minute = rh * 60 + rm;
    let at0 = resolve_spec(tz, day0 * 1440 + report_minute)->0;
    let report_day = if at0 <= now { day0 + 7 } else { day0 };
    lemma_weekday_steps(day0, wi);
    let report_at = if at0 <= now { resolve_spec(tz, report_day * 1440 + report_minute)->0 } else { at0 };
    lemma_weekday_steps(report_day, ci);
    let monday = report_day - weekday_of(report_day);
    let cutoff_delta = (7 + weekday_of(report_day) - ci) % 7;
    let cut_day0 = report_day - cutoff_delta;
    let cutoff_minute = ch * 60 + cm;
    let cut0 = resolve_spec(tz, cut_day0 * 1440 + cutoff_minute)->0;
    let cutoff_day = if cut0 > report_at { cut_day0 - 7 } else { cut_day0 };
    lemma_weekday_steps(cut_day0 - 7, ci);
    assert((cutoff_day + 3) % 7 == ci);
    assert((report_day + 3) % 7 == wi);
    assert(Some(cutoff) == resolve_spec(tz, cutoff_day * 1440 + ch * 60 + cm));
    assert(resolve_spec(tz, report_day * 1440 + rh * 60 + rm) == Some(report_at));
    assert((monday + 3) % 7 == 0);
    assert(Some(start) == resolve_spec(tz, (monday - 7) * 1440));
    assert(Some(end) == resolve_spec(tz, monday * 1440));
    assert(monday <= report_day < monday + 7);
    assert(today <= report_day <= today + 13);
    assert(report_day - 14 < cutoff_day <= report_day);
    assert(week_before_report(tz, s, now, start, end, cutoff, monday, report_day, cutoff_day, report_at));
}

fn weekday_of_day(day: i64) -> (w: i64)
    requires
        -1000000000000 <= day <= 1000000000000,
    ensures
        w == weekday_of(day as int),
        0 <= w < 7,
{
    let r = (day + 3) % 7;
    if r < 0 {
        r + 7
    } else {
        r
    }
}

/// Resolves a local minute, moving forward through a skipped interval to the
/// first minute that exists.
fn resolve_local(tz: &str, minute: i64) -> (r: Option<i64>)
    requires
        tz_known(tz@),
        min_local_minute() <= minute <= max_local_minute(),
    ensures
        match r {
            Some(t) => resolve_spec(tz@, minute as int) == Some(t as int),
            None => resolve_spec(tz@, minute as int) is None,
        },
{
    let mut candidate = minute;
    while candidate <= 136837779839
        invariant
            tz_known(tz@),
            min_local_minute() <= minute <= candidate <= max_local_minute() + 1,
            resolve_spec(tz@, minute as int) == resolve_from(
                tz@,
                candidate as int,
                (max_local_minute() + 1 - candidate) as nat,
            ),
        decreases max_local_minute() + 1 - candidate,
    {
        match resolve_local_minute(tz, candidate) {
            LocalResolution::Single(t) => {
                return Some(t);
            },
            LocalResolution::Ambiguous(t) => {
                return Some(t);
            },
            LocalResolution::Gap => {
                candidate = candidate + 1;
            },
        }
    }
    None
}

/// Freezes the next report's prior-calendar-week boundaries into UTC.
/// Repeated local times choose the earlier offset; a local time in a gap
/// advances minute by minute to the first valid instant.
#[verifier::rlimit(60)]
pub fn previous_calendar_week_window(timezone: &str, schedule: &ReportSchedule, now: i64) -> (r: Result<
    (i64, i64, i64),
    AppError,
>)
    requires
        min_calendar_instant() <= now <= max_calendar_instant(),
    ensures
        match r {
            Ok((start, end, cutoff)) => window_spec(timezone@, schedule@, now as int) == Ok::<(int, int, int), ErrorV>(
                (start as int, end as int, cutoff as int),
            ),
            Err(e) => window_spec(timezone@, schedule@, now as int) == Err::<(int, int, int), ErrorV>(e@),
        },
{
    if !is_known_timezone(timezone) {
        return Err(AppError::invalid_request("report_timezone must be a valid IANA timezone"));
    }
    let (rh, rm) = match parse_hh_mm(schedule.report_local_time.as_str()) {
        Some(t) => t,
        None => {
            return Err(AppError::invalid_request("report_schedule.report_local_time must be HH:MM"));
        },
    };
    let (ch, cm) = match parse_hh_mm(schedule.cutoff_local_time.as_str()) {
        Some(t) => t,
        None => {
            return Err(AppError::invalid_request("report_schedule.cutoff_local_time must be HH:MM"));
        },
    };
    let today = local_day(timezone, now);
    proof {
        let q = now as int / day_micros();
        assert(-96465233 <= q <= 95026176) by (nonlinear_arith)
            requires
                q == now as int / 86400000000,
                -8334596131200000000 <= now <= 8210261692799999999,
        ;
        assert(-96465234 <= today <= 95026177);
    }
    let wd = weekday_of_day(today);
    let rw = schedule.report_weekday.num_days_from_monday() as i64;
    let delta = (7 + rw - wd) % 7;
    let day0 = today + delta;
    let report_minute = (rh as i64) * 60 + (rm as i64);
    let at0 = match resolve_local(timezone, day0 * 1440 + report_minute) {
        Some(t) => t,
        None => {
            return Err(AppError::new(ErrorCode::Internal, "local time cannot be resolved in the report timezone"));
        },
    };
    let mut report_day = day0;
    let mut report_at = at0;
    if at0 <= now {
        report_day = day0 + 7;
        report_at = match resolve_local(timezone, report_day * 1440 + report_minute) {
            Some(t) => t,
            None => {
                return Err(AppError::new(ErrorCode::Internal, "local time cannot be resolved in the report timezone"));
            },
        };
    }
    let report_wd = weekday_of_day(report_day);
    let monday = report_day - report_wd;
    let cw = schedule.cutoff_weekday.num_days_from_monday() as i64;
    let cutoff_delta = (7 + report_wd - cw) % 7;
    let cut_day0 = report_day - cutoff_delta;
    let cutoff_minute = (ch as i64) * 60 + (cm as i64);
    let cut0 = match resolve_local(timezone, cut_day0 * 1440 + cutoff_minute) {
        Some(t) => t,
        None => {
            return Err(AppError::new(ErrorCode::Internal, "local time cannot be resolved in the report timezone"));
        },
    };
    let mut cutoff = cut0;
    if cut0 > report_at {
        cutoff = match resolve_local(timezone, (cut_day0 - 7) * 1440 + cutoff_minute) {
            Some(t) => t,
            None => {
                return Err(AppError::new(ErrorCode::Internal, "local time cannot be resolved in the report timezone"));
            },
        };
    }
    let start = match resolve_local(timezone, (monday - 7) * 1440) {
        Some(t) => t,
        None => {
            return Err(AppError::new(ErrorCode::Internal, "local time cannot be resolved in the report timezone"));
        },
    };
    let end = match resolve_local(timezone, monday * 1440) {
        Some(t) => t,
        None => {
            return Err(AppError::new(ErrorCode::Internal, "local time cannot be resolved in the report timezone"));
        },
    };
    Ok((start, end, cutoff))
}

} // verus!
