//! Modification times as zip stores them.

use onezipper::timestamp::{whole_seconds, zip_time, zip_time_at, ZipStamp, EARLIEST_SECOND, LATEST_SECOND};

/// Seconds since the epoch of a UTC date and time.
fn unix(year: i64, month: i64, day: i64, hour: i64, minute: i64) -> i64 {
    // Days from civil, for dates after 1970.
    let y = if month <= 2 { year - 1 } else { year };
    let era = y.div_euclid(400);
    let yoe = y - era * 400;
    let m = if month > 2 { month - 3 } else { month + 9 };
    let doy = (153 * m + 2) / 5 + day - 1;
    let doe = yoe * 365 + yoe / 4 - yoe / 100 + doy;
    let days = era * 146097 + doe - 719468;
    days * 86400 + hour * 3600 + minute * 60
}

/// The calendar fields zip reads back from a stamp's two halves.
fn fields(s: ZipStamp) -> (u16, u8, u8, u8, u8) {
    match s {
        ZipStamp::Local { date, time } => {
            let t = zip::DateTime::try_from_msdos(date, time).unwrap();
            (t.year(), t.month(), t.day(), t.hour(), t.minute())
        }
        other => panic!("expected a timestamp, got {other:?}"),
    }
}

fn is_local(s: ZipStamp) -> bool {
    matches!(s, ZipStamp::Local { .. })
}

#[test]
fn wall_clock_times_survive_on_both_sides_of_a_dst_boundary() {
    // Winter at UTC+1 and summer at UTC+2 both read 12:30 on the wall.
    let winter = zip_time_at(unix(2023, 1, 15, 11, 30), Some(3600));
    let summer = zip_time_at(unix(2023, 7, 15, 10, 30), Some(7200));
    assert_eq!(fields(winter), (2023, 1, 15, 12, 30));
    assert_eq!(fields(summer), (2023, 7, 15, 12, 30));
}

#[test]
fn an_out_of_range_mtime_does_not_fail_the_archive() {
    assert_eq!(zip_time_at(0, Some(0)), ZipStamp::NoStamp);
    assert_eq!(zip_time_at(0, None), ZipStamp::NoStamp);
    assert_eq!(zip_time_at(unix(2108, 1, 1, 0, 0), None), ZipStamp::NoStamp);
    assert!(is_local(zip_time_at(unix(2107, 12, 31, 23, 59), None)));
    assert!(is_local(zip_time_at(unix(1980, 1, 1, 0, 0), None)));
    // Just before midnight UTC on New Year 1980, an offset east moves it in range.
    assert_eq!(zip_time_at(unix(1979, 12, 31, 23, 0), None), ZipStamp::NoStamp);
    assert!(is_local(zip_time_at(unix(1979, 12, 31, 23, 0), Some(3600))));
    assert_eq!(zip_time(None), ZipStamp::NoStamp);
}

#[test]
fn timestamps_are_preserved_through_an_append() {
    let t = zip_time_at(unix(2021, 2, 2, 9, 15), None);
    assert_eq!(fields(t), (2021, 2, 2, 9, 15));
    let negative = zip_time_at(unix(2021, 2, 2, 9, 15) + 3600, Some(-3600));
    assert_eq!(fields(negative), (2021, 2, 2, 9, 15));
}

#[test]
fn modification_times_round_down_to_whole_seconds() {
    assert_eq!(whole_seconds(false, 5, 7), Some(5));
    assert_eq!(whole_seconds(true, 0, 500_000_000), Some(-1));
    assert_eq!(whole_seconds(true, 2, 0), Some(-2));
    assert_eq!(whole_seconds(true, 2, 1), Some(-3));
    assert_eq!(whole_seconds(false, u64::MAX, 0), None);
    assert_eq!(whole_seconds(true, 1u64 << 63, 0), Some(i64::MIN));
    assert_eq!(whole_seconds(true, 1u64 << 63, 1), None);
}

#[test]
fn stamps_pack_the_fields_as_dos_timestamps() {
    // 2023-01-15 12:30:00: day 15, month 1, year 43 after 1980; 12:30:00.
    let s = zip_time_at(unix(2023, 1, 15, 12, 30), None);
    assert_eq!(s, ZipStamp::Local { date: 15 + 32 + 43 * 512, time: 30 * 32 + 12 * 2048 });
    // Seconds are halved, and 59 counts as 58.
    let s = zip_time_at(unix(2000, 2, 29, 23, 59) + 59, None);
    assert_eq!(s, ZipStamp::Local { date: 29 + 2 * 32 + 20 * 512, time: 29 + 59 * 32 + 23 * 2048 });
}

#[test]
fn a_local_time_beyond_the_calendar_is_reported() {
    assert_eq!(zip_time_at(LATEST_SECOND, Some(3600)), ZipStamp::BeyondCalendar);
    assert_eq!(zip_time_at(EARLIEST_SECOND, Some(-60)), ZipStamp::BeyondCalendar);
    assert_eq!(zip_time_at(LATEST_SECOND, None), ZipStamp::NoStamp);
    assert_eq!(zip_time_at(EARLIEST_SECOND, Some(60)), ZipStamp::NoStamp);
}
