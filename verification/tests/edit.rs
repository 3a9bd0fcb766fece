use togglite::api::TimeEntry;
use togglite::edit::{edited_times, resolve_time};
use togglite::util::{from_local, parse_hm, rfc3339_utc, to_local};

/// The editor's clock in these tests: UTC.
const OFFSET: i64 = 0;
/// Japan Standard Time, nine hours east of UTC.
const JST: i64 = 9 * 3600;

fn entry(start: i64, duration: i64) -> TimeEntry {
    TimeEntry {
        id: 1,
        workspace_id: 1,
        description: None,
        project_id: None,
        start: rfc3339_utc(start),
        stop: (duration >= 0).then(|| rfc3339_utc(start + duration)),
        duration,
        server_deleted_at: None,
    }
}

/// Unix time of `hh:mm:ss` on the same local day as `base`.
fn at_in(base: i64, h: u32, m: u32, s: u32, offset: i64) -> i64 {
    let d = to_local(base, offset);
    from_local(d.year, d.month, d.day, h, m, s, offset)
}

fn at(base: i64, h: u32, m: u32, s: u32) -> i64 {
    at_in(base, h, m, s, OFFSET)
}

#[test]
fn unchanged_fields_keep_exact_timestamps() {
    // 2025-09-16 12:00 UTC: a plain weekday, no DST transition anywhere.
    let noon = 1758024000;
    let start = at(noon, 9, 30, 17);
    let e = entry(start, 2 * 3600 + 30);
    let (s, stop) = edited_times(&e, "09:30", "11:30", OFFSET).unwrap();
    assert_eq!(s, start);
    assert_eq!(stop, Some(start + 2 * 3600 + 30));
    // Surrounding whitespace doesn't count as a change.
    assert_eq!(edited_times(&e, " 09:30 ", "11:30 ", OFFSET).unwrap(), (s, stop));
}

#[test]
fn changed_fields_are_read_on_the_entry_day() {
    let noon = 1758024000;
    let start = at(noon, 9, 30, 17);
    let e = entry(start, 2 * 3600);
    let (s, stop) = edited_times(&e, "8:45", "1215", OFFSET).unwrap();
    assert_eq!(s, at(noon, 8, 45, 0));
    assert_eq!(stop, Some(at(noon, 12, 15, 0)));
    // Only the start moved: the stop keeps its seconds.
    let (s, stop) = edited_times(&e, "09:00", "11:30", OFFSET).unwrap();
    assert_eq!(s, at(noon, 9, 0, 0));
    assert_eq!(stop, Some(start + 2 * 3600));
}

#[test]
fn stop_before_start_rolls_to_next_day() {
    let noon = 1758024000;
    let start = at(noon, 23, 0, 0);
    let e = entry(start, 3600);
    let (_, stop) = edited_times(&e, "23:00", "00:30", OFFSET).unwrap();
    assert_eq!(stop, Some(at(noon, 0, 30, 0) + 86400));
    // Moving the start past the (unchanged) stop re-reads the stop on the new start's day.
    let e = entry(at(noon, 9, 0, 0), 3600);
    let (s, stop) = edited_times(&e, "11:00", "10:00", OFFSET).unwrap();
    assert_eq!(stop, Some(s + 23 * 3600));
}

#[test]
fn running_entries_have_no_stop_and_bad_input_is_rejected() {
    let noon = 1758024000;
    let e = entry(at(noon, 9, 30, 0), -1);
    assert_eq!(edited_times(&e, "09:00", "", OFFSET).unwrap(), (at(noon, 9, 0, 0), None));
    assert_eq!(edited_times(&e, "9:", "", OFFSET), None);
    let e = entry(at(noon, 9, 30, 0), 600);
    assert_eq!(edited_times(&e, "09:30", "x", OFFSET), None);
    assert_eq!(edited_times(&e, "25:00", "09:40", OFFSET), None);
}

#[test]
fn local_clock_east_of_utc() {
    // 2025-09-16 12:00 UTC is 21:00 in Tokyo.
    let noon = 1758024000;
    let lt = to_local(noon, JST);
    assert_eq!((lt.year, lt.month, lt.day, lt.hour, lt.minute, lt.second), (2025, 9, 16, 21, 0, 0));
    assert_eq!(lt.weekday, 2);
    assert_eq!(lt.hm(), "21:00");
    // 2025-09-16 18:30 UTC is already the 17th in Tokyo.
    let lt = to_local(noon + 6 * 3600 + 1800, JST);
    assert_eq!((lt.month, lt.day, lt.hour, lt.minute), (9, 17, 3, 30));
    assert_eq!(from_local(2025, 9, 17, 3, 30, 0, JST), noon + 6 * 3600 + 1800);
    // Typed times are read on the Tokyo day.
    assert_eq!(resolve_time("08:00", noon, JST), Some(at_in(noon, 8, 0, 0, JST)));
    assert_eq!(at_in(noon, 8, 0, 0, JST), noon - 13 * 3600);
}

#[test]
fn local_time_reads_back() {
    for t in [-62167219200i64, -1, 0, 86399, 951782400, 1758024017, 253402300799] {
        for off in [-12 * 3600i64, -1, 0, JST, 14 * 3600] {
            let lt = to_local(t, off);
            assert_eq!(from_local(lt.year, lt.month, lt.day, lt.hour, lt.minute, lt.second, off), t);
        }
    }
    let lt = to_local(-1, 0);
    assert_eq!((lt.year, lt.month, lt.day, lt.hour, lt.minute, lt.second), (1969, 12, 31, 23, 59, 59));
    assert_eq!(lt.weekday, 3);
    assert_eq!(lt.days(), -1);
}

#[test]
fn clock_times_typed_by_the_user() {
    assert_eq!(parse_hm("09:30"), Some((9, 30)));
    assert_eq!(parse_hm(" 9:05 "), Some((9, 5)));
    assert_eq!(parse_hm("1215"), Some((12, 15)));
    assert_eq!(parse_hm("945"), Some((9, 45)));
    assert_eq!(parse_hm("23:59"), Some((23, 59)));
    assert_eq!(parse_hm("24:00"), None);
    assert_eq!(parse_hm("12:60"), None);
    assert_eq!(parse_hm("9:"), None);
    assert_eq!(parse_hm("9:5"), None);
    assert_eq!(parse_hm("123:00"), None);
    assert_eq!(parse_hm("12345"), None);
    assert_eq!(parse_hm("ab:cd"), None);
    assert_eq!(parse_hm(""), None);
}

#[test]
fn unchanged_field_keeps_seconds_and_typed_field_drops_them() {
    let t = 1758024017; // 12:00:17 UTC
    assert_eq!(resolve_time("12:00", t, 0), Some(t));
    assert_eq!(resolve_time("12:01", t, 0), Some(t - 17 + 60));
    assert_eq!(resolve_time("nope", t, 0), None);
}
