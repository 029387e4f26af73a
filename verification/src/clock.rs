//! Wall-clock and calendar facts taken from `chrono` and `chrono-tz`.

use vstd::prelude::*;

verus! {

/// The hour and minute `chrono::NaiveTime::parse_from_str(text, "%H:%M")`
/// reads from `text`, or `None` where it rejects it.
pub uninterp spec fn hh_mm_parse(text: Seq<char>) -> Option<(u32, u32)>;

/// Parses `HH:MM` with `chrono::NaiveTime::parse_from_str`.  A parsed time is
/// a valid time of day.
#[verifier::external_body]
pub(crate) fn parse_hh_mm(text: &str) -> (time: Option<(u32, u32)>)
    ensures
        time == hh_mm_parse(text@),
        time matches Some((h, m)) ==> h < 24 && m < 60,
{
    chrono::NaiveTime::parse_from_str(text, "%H:%M").ok().map(
        |t| (<chrono::NaiveTime as chrono::Timelike>::hour(&t), <chrono::NaiveTime as chrono::Timelike>::minute(&t)),
    )
}

/// Whether `chrono_tz::Tz` knows `name` as an IANA time zone.
pub uninterp spec fn tz_known(name: Seq<char>) -> bool;

/// Parses a time-zone name with `chrono_tz::Tz`'s `FromStr`.
#[verifier::external_body]
pub(crate) fn is_known_timezone(name: &str) -> (known: bool)
    ensures
        known == tz_known(name@),
{
    name.parse::<chrono_tz::Tz>().is_ok()
}


/// The earliest and latest instants `chrono` can represent, in microseconds
/// since the Unix epoch (the first and last instant of its year range).
pub open spec fn min_instant() -> int {
    -8334601315200000000
}

pub open spec fn max_instant() -> int {
    8210266876799999999
}

/// Microseconds in a day.
pub open spec fn day_micros() -> int {
    86400000000
}

/// The current time in microseconds since the Unix epoch, from
/// `chrono::Utc::now`.  It is an instant `chrono` can represent; nothing else
/// is stated of it.
#[verifier::external_body]
pub(crate) fn utc_now_micros() -> (now: i64)
    ensures
        min_instant() <= now <= max_instant(),
{
    chrono::Utc::now().timestamp_micros()
}

/// The calendar day (days since 1970-01-01) that `tz` shows at instant `utc`.
pub uninterp spec fn tz_local_day(tz: Seq<char>, utc: int) -> int;

/// `DateTime::with_timezone(tz).date_naive()`, as days since 1970-01-01.  A
/// time zone is less than a day away from UTC, so the local day is the UTC
/// day or one of its neighbours.  The instant is kept a day inside the range
/// `chrono` can represent, so that its local date is representable too.
#[verifier::external_body]
pub(crate) fn local_day(tz: &str, utc: i64) -> (day: i64)
    requires
        tz_known(tz@),
        min_instant() + day_micros() <= utc <= max_instant() - day_micros(),
    ensures
        day == tz_local_day(tz@, utc as int),
        utc as int / day_micros() - 1 <= day <= utc as int / day_micros() + 1,
{
    let zone: chrono_tz::Tz = tz.parse().unwrap();
    let local = chrono::DateTime::from_timestamp_micros(utc).unwrap().with_timezone(&zone).date_naive();
    let epoch = chrono::NaiveDate::from_ymd_opt(1970, 1, 1).unwrap();
    local.signed_duration_since(epoch).num_days()
}

/// How a local wall-clock minute maps to an instant in a time zone.
#[derive(Debug, Clone, Copy, PartialEq, Eq, Structural)]
pub enum LocalResolution {
    /// Exactly one instant.
    Single(i64),
    /// A repeated local time; the earlier instant.
    Ambiguous(i64),
    /// A local time skipped by a transition.
    Gap,
}

/// What `TimeZone::from_local_datetime` reports for the local minute
/// `minute` (minutes since 1970-01-01T00:00 local) in `tz`.
pub uninterp spec fn tz_resolve(tz: Seq<char>, minute: int) -> LocalResolution;

/// The earliest and latest local minutes (minutes since 1970-01-01T00:00)
/// this library resolves: a day inside the range `chrono` represents, so
/// that a local reading and its instant are both representable.
pub open spec fn min_local_minute() -> int {
    -138910020480
}

pub open spec fn max_local_minute() -> int {
    136837779839
}

/// `chrono_tz::Tz::from_local_datetime` for a whole local minute.  A resolved
/// instant is within a day of the same wall-clock reading in UTC.
#[verifier::external_body]
pub(crate) fn resolve_local_minute(tz: &str, minute: i64) -> (r: LocalResolution)
    requires
        tz_known(tz@),
        min_local_minute() <= minute <= max_local_minute(),
    ensures
        r == tz_resolve(tz@, minute as int),
        r matches LocalResolution::Single(t) ==> minute * 60000000 - day_micros() < t < minute * 60000000
            + day_micros(),
        r matches LocalResolution::Ambiguous(t) ==> minute * 60000000 - day_micros() < t < minute * 60000000
            + day_micros(),
{
    let zone: chrono_tz::Tz = tz.parse().unwrap();
    let naive = chrono::DateTime::from_timestamp(minute * 60, 0).unwrap().naive_utc();
    match <chrono_tz::Tz as chrono::TimeZone>::from_local_datetime(&zone, &naive) {
        chrono::LocalResult::Single(value) => LocalResolution::Single(value.timestamp_micros()),
        chrono::LocalResult::Ambiguous(earliest, _) => LocalResolution::Ambiguous(earliest.timestamp_micros()),
        chrono::LocalResult::None => LocalResolution::Gap,
    }
}

} // verus!
