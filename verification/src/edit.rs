//! The time fields of the entry editor: what a typed clock time means for an entry.
use vstd::prelude::*;
use crate::api::{TimeEntry, start_secs};
use vstd::arithmetic::div_mod::lemma_fundamental_div_mod_converse;
use crate::calendar::{days_from_civil_spec, lemma_civil_from_days};
use crate::text::{
    is_ascii_digit, lemma_pad_digits, pad_digits, pow10, trim, trim_end_spec, trim_spec,
    trim_start_spec,
};
use crate::util::{
    LocalTime, to_local, from_local, from_local_spec, parse_hm, parse_hm_spec, parse_rfc3339,
    parse_rfc3339_spec, valid_offset, local_day, is_local_time, hm_spec, lemma_parsed_range,
    lemma_parse_hm_range, lemma_colon_pos,
};

verus! {

/// `HH:MM` of the Unix time `secs` on a clock `offset` seconds east of UTC.
pub open spec fn clock_hm(secs: int, offset: int) -> Seq<char> {
    let r = (secs + offset) % 86400;
    pad_digits((r / 3600) as nat, 2) + seq![':'] + pad_digits((r % 3600 / 60) as nat, 2)
}

/// The Unix time of `h:m` on the local day of `secs`.
pub open spec fn same_day_at(secs: int, h: int, m: int, offset: int) -> int {
    local_day(secs, offset) * 86400 + h * 3600 + m * 60 - offset
}

/// `secs` lies more than two days from either end of the `i64` range.
pub open spec fn roomy(secs: int) -> bool {
    i64::MIN + 2 * 86400 <= secs <= i64::MAX - 2 * 86400
}

/// A time field as typed over the shown time `orig`: left as shown (white space aside) it
/// keeps `orig` to the second; else it is read as `HH:MM` on the local day of `orig`.
pub open spec fn resolve_time_spec(text: Seq<char>, orig: int, offset: int) -> Option<int> {
    if trim_spec(text) == clock_hm(orig, offset) {
        Some(orig)
    } else {
        match parse_hm_spec(text) {
            Some((h, m)) => Some(same_day_at(orig, h, m, offset)),
            None => None,
        }
    }
}

/// The stop time an entry carries, if it reads.
pub open spec fn stop_secs(e: TimeEntry) -> Option<int> {
    match e.stop {
        Some(s) => parse_rfc3339_spec(s@),
        None => None,
    }
}

/// The stop of a stopped entry that started at `start`: its own, or `start + duration`.
pub open spec fn orig_stop(e: TimeEntry, start: int) -> int {
    match stop_secs(e) {
        Some(v) => v,
        None => start + e.duration,
    }
}

/// Start and stop implied by the editor's fields for `e`; a running entry has no stop, and
/// a stop read before the start rolls over to the next day.
pub open spec fn edited_times_spec(
    e: TimeEntry,
    start_text: Seq<char>,
    stop_text: Seq<char>,
    offset: int,
) -> Option<(int, Option<int>)> {
    match start_secs(e) {
        None => None,
        Some(os) => match resolve_time_spec(start_text, os, offset) {
            None => None,
            Some(start) => if e.duration < 0 {
                Some((start, None))
            } else {
                let ostop = orig_stop(e, os);
                if trim_spec(stop_text) == clock_hm(ostop, offset) && ostop >= start {
                    Some((start, Some(ostop)))
                } else {
                    match parse_hm_spec(stop_text) {
                        None => None,
                        Some((h, m)) => {
                            let st = same_day_at(start, h, m, offset);
                            Some(
                                (
                                    start,
                                    Some(
                                        if st < start {
                                            st + 86400
                                        } else {
                                            st
                                        },
                                    ),
                                ),
                            )
                        },
                    }
                }
            },
        },
    }
}

/// A stopped entry whose stop does not read falls back on `start + duration`, which must
/// stay away from the ends of the `i64` range.
pub open spec fn stop_in_range(e: TimeEntry) -> bool {
    e.duration >= 0 && stop_secs(e) is None ==> match start_secs(e) {
        Some(os) => roomy(os + e.duration),
        None => true,
    }
}

/// Reading a local time back gives the instant it was made from.
pub proof fn lemma_local_round_trip(lt: LocalTime, secs: int, offset: int)
    requires
        is_local_time(lt, secs, offset),
    ensures
        from_local_spec(
            lt.year as int,
            lt.month as int,
            lt.day as int,
            lt.hour as int,
            lt.minute as int,
            lt.second as int,
            offset,
        ) == secs,
{
    lemma_civil_from_days(local_day(secs, offset));
}

/// What a local time tells of its instant: its `HH:MM`, its day number, and where a clock
/// time on the same day falls.
pub(crate) proof fn lemma_same_day(lt: LocalTime, secs: int, offset: int, h: int, m: int)
    requires
        is_local_time(lt, secs, offset),
        0 <= h < 24,
        0 <= m < 60,
    ensures
        hm_spec(lt) == clock_hm(secs, offset),
        days_from_civil_spec(lt.year as int, lt.month as int, lt.day as int) == local_day(secs, offset),
        from_local_spec(lt.year as int, lt.month as int, lt.day as int, h, m, 0, offset)
            == same_day_at(secs, h, m, offset),
        secs - 86400 < same_day_at(secs, h, m, offset) < secs + 86400,
{
    lemma_civil_from_days(local_day(secs, offset));
}

/// Reads a time field over the shown time `orig` (see `resolve_time_spec`).
pub fn resolve_time(text: &str, orig: i64, offset: i64) -> (r: Option<i64>)
    requires
        valid_offset(offset as int),
        roomy(orig as int),
    ensures
        match r {
            Some(v) => resolve_time_spec(text@, orig as int, offset as int) == Some(v as int),
            None => resolve_time_spec(text@, orig as int, offset as int) is None,
        },
        r matches Some(v) ==> orig - 86400 < v < orig + 86400,
{
    let lt = to_local(orig, offset);
    let shown = lt.hm();
    let typed = trim(text);
    proof {
        lemma_same_day(lt, orig as int, offset as int, 0, 0);
    }
    if typed == shown {
        return Some(orig);
    }
    match parse_hm(text) {
        Some((h, m)) => {
            proof {
                lemma_same_day(lt, orig as int, offset as int, h as int, m as int);
            }
            Some(from_local(lt.year, lt.month, lt.day, h, m, 0, offset))
        },
        None => None,
    }
}

/// Start and stop implied by the editor's time fields for `entry` (see `edited_times_spec`),
/// or None if they don't read.
pub fn edited_times(entry: &TimeEntry, start_text: &str, stop_text: &str, offset: i64) -> (r:
    Option<(i64, Option<i64>)>)
    requires
        valid_offset(offset as int),
        stop_in_range(*entry),
    ensures
        match r {
            Some((s, st)) => edited_times_spec(*entry, start_text@, stop_text@, offset as int)
                == Some(
                (
                    s as int,
                    match st {
                        Some(x) => Some(x as int),
                        None => None,
                    },
                ),
            ),
            None => edited_times_spec(*entry, start_text@, stop_text@, offset as int) is None,
        },
{
    let orig_start = match parse_rfc3339(entry.start.as_str()) {
        Some(v) => v,
        None => return None,
    };
    proof {
        lemma_parsed_range(entry.start@);
    }
    let start = match resolve_time(start_text, orig_start, offset) {
        Some(v) => v,
        None => return None,
    };
    if entry.is_running() {
        return Some((start, None));
    }
    let parsed_stop = match &entry.stop {
        Some(s) => parse_rfc3339(s.as_str()),
        None => None,
    };
    let orig_stop = match parsed_stop {
        Some(v) => {
            proof {
                lemma_parsed_range(entry.stop->0@);
            }
            v
        },
        None => orig_start + entry.duration,
    };
    let shown_lt = to_local(orig_stop, offset);
    let shown = shown_lt.hm();
    let typed = trim(stop_text);
    proof {
        lemma_same_day(shown_lt, orig_stop as int, offset as int, 0, 0);
    }
    if typed == shown && orig_stop >= start {
        return Some((start, Some(orig_stop)));
    }
    let (h, m) = match parse_hm(stop_text) {
        Some(p) => p,
        None => return None,
    };
    let d = to_local(start, offset);
    proof {
        lemma_same_day(d, start as int, offset as int, h as int, m as int);
    }
    let mut stop = from_local(d.year, d.month, d.day, h, m, 0, offset);
    if stop < start {
        stop = stop + 86400;
    }
    Some((start, Some(stop)))
}

/// Fields left as they were shown give back the entry's own start and stop, seconds
/// included (white space around them aside).
pub proof fn lemma_unchanged_fields_keep_times(
    e: TimeEntry,
    start_text: Seq<char>,
    stop_text: Seq<char>,
    offset: int,
)
    requires
        start_secs(e) is Some,
        e.duration >= 0,
        trim_spec(start_text) == clock_hm(start_secs(e)->0, offset),
        trim_spec(stop_text) == clock_hm(orig_stop(e, start_secs(e)->0), offset),
        orig_stop(e, start_secs(e)->0) >= start_secs(e)->0,
    ensures
        edited_times_spec(e, start_text, stop_text, offset) == Some(
            (start_secs(e)->0, Some(orig_stop(e, start_secs(e)->0))),
        ),
{
}

/// An edited stopped entry never ends before it starts, and a stop that was typed lies
/// less than a day after the start.
pub proof fn lemma_edited_stop_after_start(
    e: TimeEntry,
    start_text: Seq<char>,
    stop_text: Seq<char>,
    offset: int,
)
    requires
        edited_times_spec(e, start_text, stop_text, offset) matches Some((s, Some(t))),
    ensures
        ({
            let (s, stop) = edited_times_spec(e, start_text, stop_text, offset)->0;
            &&& s <= stop->0
            &&& stop->0 != orig_stop(e, start_secs(e)->0) ==> stop->0 < s + 86400
        }),
{
    let (s, stop) = edited_times_spec(e, start_text, stop_text, offset)->0;
    let os = start_secs(e)->0;
    let ostop = orig_stop(e, os);
    if !(trim_spec(stop_text) == clock_hm(ostop, offset) && ostop >= s) {
        let (h, m) = parse_hm_spec(stop_text)->0;
        lemma_parse_hm_range(stop_text);
        let z = local_day(s, offset);
        assert(z * 86400 <= s + offset < z * 86400 + 86400);
    }
}

/// A time field that was changed and reads as `h:m` gives a time on the local calendar
/// day of the time it was shown over, at which a clock `offset` seconds east of UTC reads
/// `h:m:00`; a field left as shown gives back the shown time itself.
pub proof fn lemma_typed_time_on_entry_day(text: Seq<char>, orig: int, offset: int, h: int, m: int)
    requires
        parse_hm_spec(text) == Some((h, m)),
    ensures
        trim_spec(text) == clock_hm(orig, offset) ==> resolve_time_spec(text, orig, offset)
            == Some(orig),
        trim_spec(text) != clock_hm(orig, offset) ==> ({
            let v = resolve_time_spec(text, orig, offset);
            &&& v is Some
            &&& local_day(v->0, offset) == local_day(orig, offset)
            &&& (v->0 + offset) % 86400 == h * 3600 + m * 60
        }),
{
    lemma_parse_hm_range(text);
    if trim_spec(text) != clock_hm(orig, offset) {
        let z = local_day(orig, offset);
        let v = z * 86400 + h * 3600 + m * 60 - offset;
        assert(resolve_time_spec(text, orig, offset) == Some(v));
        lemma_fundamental_div_mod_converse(v + offset, 86400, z, h * 3600 + m * 60);
    }
}

/// A stop that was typed as `h:m` over a stopped entry is the first time at or after the
/// edited start at which the local clock reads `h:m:00`: it lies less than a day after
/// the start, on that clock.
pub proof fn lemma_typed_stop_reading(
    e: TimeEntry,
    start_text: Seq<char>,
    stop_text: Seq<char>,
    offset: int,
    h: int,
    m: int,
)
    requires
        edited_times_spec(e, start_text, stop_text, offset) matches Some((s, Some(t))),
        parse_hm_spec(stop_text) == Some((h, m)),
        trim_spec(stop_text) != clock_hm(orig_stop(e, start_secs(e)->0), offset),
    ensures
        ({
            let (s, stop) = edited_times_spec(e, start_text, stop_text, offset)->0;
            &&& s <= stop->0 < s + 86400
            &&& (stop->0 + offset) % 86400 == h * 3600 + m * 60
        }),
{
    let (s, stop) = edited_times_spec(e, start_text, stop_text, offset)->0;
    lemma_parse_hm_range(stop_text);
    let z = local_day(s, offset);
    let st = z * 86400 + h * 3600 + m * 60 - offset;
    assert(z * 86400 <= s + offset < z * 86400 + 86400);
    lemma_fundamental_div_mod_converse(st + offset, 86400, z, h * 3600 + m * 60);
    lemma_fundamental_div_mod_converse(st + 86400 + offset, 86400, z + 1, h * 3600 + m * 60);
}

/// What the editor shows, it reads back: the `HH:MM` shown for an instant reads as the
/// hour and minute of that instant on a clock `offset` seconds east of UTC.
pub proof fn lemma_shown_time_reads_back(secs: int, offset: int)
    ensures
        parse_hm_spec(clock_hm(secs, offset)) == Some(
            (((secs + offset) % 86400) / 3600, ((secs + offset) % 86400) % 3600 / 60),
        ),
{
    let r = (secs + offset) % 86400;
    let hh = r / 3600;
    let mm = r % 3600 / 60;
    reveal_with_fuel(pow10, 3);
    lemma_pad_digits(hh as nat, 2);
    lemma_pad_digits(mm as nat, 2);
    let ph = pad_digits(hh as nat, 2);
    let pm = pad_digits(mm as nat, 2);
    let t = clock_hm(secs, offset);
    assert(t == ph + seq![':'] + pm);
    assert(is_ascii_digit(ph[0]) && is_ascii_digit(ph[1]));
    assert(is_ascii_digit(pm[0]) && is_ascii_digit(pm[1]));
    assert(t[0] == ph[0] && t[1] == ph[1] && t[2] == ':' && t[4] == pm[1]);
    assert(trim_start_spec(t) == t);
    assert(trim_end_spec(t) == t);
    lemma_colon_pos(t, 2);
    assert(t.take(2) =~= ph);
    assert(t.skip(3) =~= pm);
}

} // verus!
