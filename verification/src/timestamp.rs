//! Modification times as zip stores them: local wall-clock time, using the
//! UTC offset in effect at the file's own time, and nothing at all when the
//! time falls outside what the format can hold.

use vstd::prelude::*;

verus! {

/// A calendar date and wall-clock time, to the second.
#[derive(PartialEq, Eq, Structural, Clone, Copy)]
pub struct CivilTime {
    pub year: i32,
    pub month: u8,
    pub day: u8,
    pub hour: u8,
    pub minute: u8,
    pub second: u8,
}

/// The first second `time` represents: -9999-01-01 00:00:00 UTC.
pub const EARLIEST_SECOND: i64 = -377705116800i64;

/// The last second `time` represents: 9999-12-31 23:59:59 UTC.
pub const LATEST_SECOND: i64 = 253402300799i64;

/// The largest UTC offset, in seconds: 25:59:59.
pub const WIDEST_OFFSET: i32 = 93599i32;

pub open spec fn is_leap_year(y: int) -> bool {
    y % 4 == 0 && (y % 100 != 0 || y % 400 == 0)
}

pub open spec fn days_in_month(y: int, m: int) -> int {
    if m == 2 {
        if is_leap_year(y) {
            29
        } else {
            28
        }
    } else if m == 4 || m == 6 || m == 9 || m == 11 {
        30
    } else {
        31
    }
}

/// A real calendar date and time of day.
pub open spec fn is_valid_civil(c: CivilTime) -> bool {
    &&& -9999 <= c.year <= 9999
    &&& 1 <= c.month <= 12
    &&& 1 <= c.day <= days_in_month(c.year as int, c.month as int)
    &&& c.hour <= 23
    &&& c.minute <= 59
    &&& c.second <= 59
}

/// Whether zip's DOS timestamp can hold `c`: years 1980 to 2107.
pub open spec fn fits_dos(c: CivilTime) -> bool {
    &&& 1980 <= c.year <= 2107
    &&& 1 <= c.month <= 12
    &&& 1 <= c.day <= 31
    &&& c.hour <= 23
    &&& c.minute <= 59
    &&& c.second <= 60
    &&& c.day <= days_in_month(c.year as int, c.month as int)
}

/// What an offset lookup can answer: an offset within range, or none.
pub open spec fn is_offset_reading(o: Option<i32>) -> bool {
    o matches Some(v) ==> -WIDEST_OFFSET <= v <= WIDEST_OFFSET
}

/// The offset used: the one found, or UTC.
pub open spec fn offset_seconds(o: Option<i32>) -> int {
    match o {
        Some(v) => v as int,
        None => 0,
    }
}

/// Days in year `y`.
pub open spec fn days_in_year(y: int) -> int {
    if is_leap_year(y) {
        366
    } else {
        365
    }
}

/// Days from 1970-01-01 to the first of January of year `y` (negative
/// before 1970), in the proleptic Gregorian calendar.
pub open spec fn days_before_year(y: int) -> int
    decreases (if y >= 1970 {
        y - 1970
    } else {
        1970 - y
    }),
{
    if y == 1970 {
        0
    } else if y > 1970 {
        days_before_year(y - 1) + days_in_year(y - 1)
    } else {
        days_before_year(y + 1) - days_in_year(y)
    }
}

/// Days of year `y` before the first of month `m`.
pub open spec fn days_before_month(y: int, m: int) -> int
    decreases m,
{
    if m <= 1 {
        0
    } else {
        days_before_month(y, m - 1) + days_in_month(y, m - 1)
    }
}

/// The second `c` names, counted from 1970-01-01 00:00:00 as on a clock
/// with no offset.
pub open spec fn epoch_seconds(c: CivilTime) -> int {
    (days_before_year(c.year as int) + days_before_month(c.year as int, c.month as int) + c.day
        - 1) * 86400 + c.hour * 3600 + c.minute * 60 + c.second
}

/// The calendar date and time `t` seconds after 1970-01-01 00:00:00 on a
/// clock with no offset.
pub open spec fn civil_from_seconds(t: int) -> CivilTime {
    choose|c: CivilTime| is_valid_civil(c) && epoch_seconds(c) == t
}

proof fn lemma_next_year(y: int)
    ensures
        days_before_year(y + 1) == days_before_year(y) + days_in_year(y),
{
}

proof fn lemma_years_ordered(a: int, b: int)
    requires
        a < b,
    ensures
        days_before_year(a) + days_in_year(a) <= days_before_year(b),
    decreases b - a,
{
    lemma_next_year(a);
    if a + 1 < b {
        lemma_years_ordered(a + 1, b);
    }
}

proof fn lemma_months_ordered(y: int, a: int, b: int)
    requires
        1 <= a < b <= 13,
    ensures
        days_before_month(y, a) + days_in_month(y, a) <= days_before_month(y, b),
    decreases b - a,
{
    if a + 1 < b {
        lemma_months_ordered(y, a, b - 1);
    }
}

proof fn lemma_year_holds_its_months(y: int)
    ensures
        days_before_month(y, 13) == days_in_year(y),
{
    reveal_with_fuel(days_before_month, 13);
}

/// The day of its year `c` falls on, counted from 0.
proof fn lemma_day_within_year(c: CivilTime)
    requires
        is_valid_civil(c),
    ensures
        0 <= days_before_month(c.year as int, c.month as int) + c.day - 1 < days_in_year(
            c.year as int,
        ),
{
    lemma_year_holds_its_months(c.year as int);
    if c.month < 12 {
        lemma_months_ordered(c.year as int, c.month as int, 13);
    }
    lemma_months_nonnegative(c.year as int, c.month as int);
}

proof fn lemma_months_nonnegative(y: int, m: int)
    ensures
        days_before_month(y, m) >= 0,
    decreases m,
{
    if m > 1 {
        lemma_months_nonnegative(y, m - 1);
    }
}

/// No two calendar times name the same second.
pub proof fn lemma_civil_unique(c1: CivilTime, c2: CivilTime)
    requires
        is_valid_civil(c1),
        is_valid_civil(c2),
        epoch_seconds(c1) == epoch_seconds(c2),
    ensures
        c1 == c2,
{
    let y1 = c1.year as int;
    let y2 = c2.year as int;
    let doy1 = days_before_month(y1, c1.month as int) + c1.day - 1;
    let doy2 = days_before_month(y2, c2.month as int) + c2.day - 1;
    let d1 = days_before_year(y1) + doy1;
    let d2 = days_before_year(y2) + doy2;
    let s1 = c1.hour * 3600 + c1.minute * 60 + c1.second;
    let s2 = c2.hour * 3600 + c2.minute * 60 + c2.second;
    assert(d1 == d2 && s1 == s2);
    assert(c1.hour == c2.hour && c1.minute == c2.minute && c1.second == c2.second);
    lemma_day_within_year(c1);
    lemma_day_within_year(c2);
    if y1 < y2 {
        lemma_years_ordered(y1, y2);
    } else if y2 < y1 {
        lemma_years_ordered(y2, y1);
    }
    assert(y1 == y2);
    if c1.month < c2.month {
        lemma_months_ordered(y1, c1.month as int, c2.month as int);
        lemma_months_nonnegative(y1, c1.month as int);
    } else if c2.month < c1.month {
        lemma_months_ordered(y1, c2.month as int, c1.month as int);
    }
    assert(c1.month == c2.month);
}

/// `time::UtcOffset::local_offset_at`, as whole seconds: the system's UTC
/// offset at that moment, or `None` when it cannot be determined. The
/// answer depends on the machine's time zone data, so nothing but its range
/// is stated.
#[verifier::external_body]
fn local_offset_at(unix: i64) -> (r: Option<i32>)
    requires
        EARLIEST_SECOND <= unix <= LATEST_SECOND,
    ensures
        r matches Some(o) ==> -WIDEST_OFFSET <= o <= WIDEST_OFFSET,
{
    let at = time::OffsetDateTime::from_unix_timestamp(unix).ok()?;
    match time::UtcOffset::local_offset_at(at) {
        Ok(offset) => Some(offset.whole_seconds()),
        Err(_) => None,
    }
}

/// `time::OffsetDateTime::to_offset`: the calendar reading of `unix` in the
/// zone `offset` seconds east of UTC, that is, the real date and time
/// `unix + offset` seconds after the epoch on a clock with no offset.
#[verifier::external_body]
fn civil_time(unix: i64, offset: i32) -> (r: CivilTime)
    requires
        EARLIEST_SECOND <= unix <= LATEST_SECOND,
        EARLIEST_SECOND <= unix + offset <= LATEST_SECOND,
        -WIDEST_OFFSET <= offset <= WIDEST_OFFSET,
    ensures
        is_valid_civil(r),
        epoch_seconds(r) == unix + offset,
{
    let utc = time::OffsetDateTime::from_unix_timestamp(unix).unwrap();
    let local = utc.to_offset(time::UtcOffset::from_whole_seconds(offset).unwrap());
    CivilTime {
        year: local.year(),
        month: local.month() as u8,
        day: local.day(),
        hour: local.hour(),
        minute: local.minute(),
        second: local.second(),
    }
}

/// The date half of a DOS timestamp: day, month and years since 1980 in
/// fields of five, four and seven bits.
pub open spec fn dos_datepart(c: CivilTime) -> int {
    c.day + c.month * 32 + (c.year - 1980) * 512
}

/// The time half of a DOS timestamp: seconds halved (59 and 60 count as
/// 58), minute and hour in fields of five, six and five bits.
pub open spec fn dos_timepart(c: CivilTime) -> int {
    (if c.second > 58 { 58 } else { c.second as int }) / 2 + c.minute * 32 + c.hour * 2048
}

/// `zip::DateTime::try_from(time::PrimitiveDateTime)`, taken apart into
/// its date and time halves: it succeeds exactly when a DOS timestamp can
/// hold the time, and then packs the fields as zip's `from_date_and_time`
/// does.
#[verifier::external_body]
fn dos_parts(c: CivilTime) -> (r: Option<(u16, u16)>)
    requires
        is_valid_civil(c),
    ensures
        r is Some <==> fits_dos(c),
        r matches Some((d, t)) ==> d == dos_datepart(c) && t == dos_timepart(c),
{
    let month = time::Month::try_from(c.month).unwrap();
    let date = time::Date::from_calendar_date(c.year, month, c.day).unwrap();
    let clock = time::Time::from_hms(c.hour, c.minute, c.second).unwrap();
    match zip::DateTime::try_from(time::PrimitiveDateTime::new(date, clock)) {
        Ok(t) => Some((t.datepart(), t.timepart())),
        Err(_) => None,
    }
}

/// The whole second a moment falls in: `secs` seconds and `nanos`
/// nanoseconds after the epoch, or before it when `before`.
pub open spec fn floor_second(before: bool, secs: nat, nanos: nat) -> int {
    if !before {
        secs as int
    } else if nanos > 0 {
        -(secs + 1)
    } else {
        -(secs as int)
    }
}

/// Rounds a moment down to its whole second since the epoch; `None` when
/// that does not fit in an `i64`.
pub fn whole_seconds(before: bool, secs: u64, nanos: u32) -> (r: Option<i64>)
    ensures
        r is Some <==> i64::MIN <= floor_second(before, secs as nat, nanos as nat) <= i64::MAX,
        r matches Some(v) ==> v == floor_second(before, secs as nat, nanos as nat),
{
    if !before {
        if secs > 0x7FFF_FFFF_FFFF_FFFFu64 {
            None
        } else {
            Some(secs as i64)
        }
    } else if nanos > 0 {
        if secs > 0x7FFF_FFFF_FFFF_FFFFu64 {
            None
        } else {
            Some(-(secs as i64) - 1)
        }
    } else if secs > 0x8000_0000_0000_0000u64 {
        None
    } else if secs == 0x8000_0000_0000_0000u64 {
        Some(i64::MIN)
    } else {
        Some(-(secs as i64))
    }
}

/// What a file's modification time becomes in its archive entry.
#[derive(PartialEq, Eq, Structural, Clone, Copy, Debug)]
pub enum ZipStamp {
    /// A DOS timestamp, as its date and time halves.
    Local { date: u16, time: u16 },
    /// No timestamp of the file's own: the time is unknown, or zip cannot
    /// hold it, and the entry keeps zip's default.
    NoStamp,
    /// The wall-clock time under the reported offset lies outside the
    /// calendar `time` covers, so there is no local time to take.
    BeyondCalendar,
}

/// The stamp for a file modified `unix` seconds after the epoch, in a zone
/// `offset` seconds east of UTC (UTC when there is none).
pub open spec fn stamp_for(unix: int, offset: Option<i32>) -> ZipStamp {
    let local = unix + offset_seconds(offset);
    if local < EARLIEST_SECOND || local > LATEST_SECOND {
        ZipStamp::BeyondCalendar
    } else {
        let c = civil_from_seconds(local);
        if fits_dos(c) {
            ZipStamp::Local { date: dos_datepart(c) as u16, time: dos_timepart(c) as u16 }
        } else {
            ZipStamp::NoStamp
        }
    }
}

/// The zip timestamp of a file modified `unix` seconds after the epoch
/// (rounded down), given the offset the system reported for that moment.
/// Without an offset the time is taken as UTC.
pub fn zip_time_at(unix: i64, offset: Option<i32>) -> (r: ZipStamp)
    requires
        EARLIEST_SECOND <= unix <= LATEST_SECOND,
        is_offset_reading(offset),
    ensures
        r == stamp_for(unix as int, offset),
{
    let o: i32 = match offset {
        Some(o) => o,
        None => 0,
    };
    let local = unix + o as i64;
    if local < EARLIEST_SECOND || local > LATEST_SECOND {
        return ZipStamp::BeyondCalendar;
    }
    let c = civil_time(unix, o);
    proof {
        let t = unix + o;
        assert(is_valid_civil(c) && epoch_seconds(c) == t);
        lemma_civil_unique(c, civil_from_seconds(t));
    }
    match dos_parts(c) {
        Some((date, time)) => ZipStamp::Local { date, time },
        None => ZipStamp::NoStamp,
    }
}

/// The zip timestamp for a file's modification time (`None` when the time
/// is unknown): local wall-clock time, using the offset in effect at that
/// time. The offset comes from the system's time zone data; whatever it is,
/// the result is [`zip_time_at`] for it.
pub fn zip_time(modified: Option<i64>) -> (r: ZipStamp)
    requires
        modified matches Some(u) ==> EARLIEST_SECOND <= u <= LATEST_SECOND,
    ensures
        modified is None ==> r == ZipStamp::NoStamp,
        modified matches Some(u) ==> exists|o: Option<i32>|
            #[trigger] is_offset_reading(o) && r == stamp_for(u as int, o),
{
    match modified {
        None => ZipStamp::NoStamp,
        Some(u) => {
            let offset = local_offset_at(u);
            assert(is_offset_reading(offset));
            zip_time_at(u, offset)
        },
    }
}

} // verus!
