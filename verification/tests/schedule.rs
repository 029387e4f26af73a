use geo_core::project::{ReportSchedule, ReportWeekday};
use geo_core::schedule::previous_calendar_week_window;

const MICROS_PER_SECOND: i64 = 1_000_000;

fn utc(seconds: i64) -> i64 {
    seconds * MICROS_PER_SECOND
}

#[test]
fn next_monday_report_uses_the_immediately_previous_calendar_week() {
    let schedule = ReportSchedule {
        report_weekday: ReportWeekday::Monday,
        report_local_time: "09:00".to_owned(),
        cutoff_weekday: ReportWeekday::Sunday,
        cutoff_local_time: "23:59".to_owned(),
        ..ReportSchedule::default()
    };
    // 2026-01-05T00:00:00Z
    let (start, end, cutoff) =
        previous_calendar_week_window("Asia/Shanghai", &schedule, utc(1_767_571_200)).expect("window");
    // 2025-12-28T16:00:00Z, 2026-01-04T16:00:00Z, 2026-01-04T15:59:00Z
    assert_eq!(start, utc(1_766_937_600));
    assert_eq!(end, utc(1_767_542_400));
    assert_eq!(cutoff, utc(1_767_542_340));
}

#[test]
fn dst_gap_advances_to_first_valid_local_minute() {
    let schedule = ReportSchedule {
        report_weekday: ReportWeekday::Monday,
        report_local_time: "09:00".to_owned(),
        cutoff_weekday: ReportWeekday::Sunday,
        cutoff_local_time: "02:30".to_owned(),
        ..ReportSchedule::default()
    };
    // 2026-03-07T12:00:00Z
    let (start, end, cutoff) =
        previous_calendar_week_window("America/New_York", &schedule, utc(1_772_884_800)).expect("window");
    // 2026-03-02T05:00:00Z, 2026-03-09T04:00:00Z, 2026-03-08T07:00:00Z
    assert_eq!(start, utc(1_772_427_600));
    assert_eq!(end, utc(1_773_028_800));
    assert_eq!(cutoff, utc(1_772_953_200));
}

#[test]
fn an_unknown_timezone_is_refused() {
    let schedule = ReportSchedule::default();
    let error = previous_calendar_week_window("Mars/Olympus_Mons", &schedule, utc(1_767_571_200)).expect_err("refused");
    assert_eq!(error.message, "report_timezone must be a valid IANA timezone");
}

#[test]
fn a_malformed_report_time_is_refused() {
    let schedule = ReportSchedule { report_local_time: "9am".to_owned(), ..ReportSchedule::default() };
    let error = previous_calendar_week_window("Asia/Shanghai", &schedule, utc(1_767_571_200)).expect_err("refused");
    assert_eq!(error.message, "report_schedule.report_local_time must be HH:MM");
}
