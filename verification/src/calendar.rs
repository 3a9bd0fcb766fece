//! The proleptic Gregorian calendar: day numbers relative to 1970-01-01 and
//! civil dates (year, month, day).
use vstd::prelude::*;

verus! {

/// Gregorian leap year rule.
pub open spec fn is_leap(y: int) -> bool {
    y % 4 == 0 && (y % 100 != 0 || y % 400 == 0)
}

/// Number of days of month `m` (1..=12) in year `y`.
pub open spec fn days_in_month(y: int, m: int) -> int {
    if m == 2 {
        if is_leap(y) {
            29
        } else {
            28
        }
    } else if m == 4 || m == 6 || m == 9 || m == 11 {
        30
    } else {
        31
    }
}

/// A real calendar date.
pub open spec fn valid_date(y: int, m: int, d: int) -> bool {
    1 <= m <= 12 && 1 <= d <= days_in_month(y, m)
}

/// Days since 1970-01-01 of the date (y, m, d). Years are counted from March, so
/// that the leap day is the last day of a year; `m` is a month number, and may be
/// out of range, in which case the formula extrapolates.
pub open spec fn days_from_civil_spec(y: int, m: int, d: int) -> int {
    let y1 = if m <= 2 {
        y - 1
    } else {
        y
    };
    let era = y1 / 400;
    let yoe = y1 % 400;
    let mp = if m > 2 {
        m - 3
    } else {
        m + 9
    };
    let doy = (153 * mp + 2) / 5 + d - 1;
    let doe = yoe * 365 + yoe / 4 - yoe / 100 + doy;
    era * 146097 + doe - 719468
}

/// The date whose day number is `z`: the unique valid date that `days_from_civil_spec`
/// maps to `z` (see `lemma_civil_from_days`).
pub open spec fn civil_from_days_spec(z: int) -> (int, int, int) {
    choose|t: (int, int, int)| valid_date(t.0, t.1, t.2) && days_from_civil_spec(t.0, t.1, t.2) == z
}

// ---- the era / year-of-era decomposition used by the algorithm

/// First day (within its 400-year era) of the March-based year `yoe` of that era.
pub open spec fn year_start(yoe: int) -> int {
    365 * yoe + yoe / 4 - yoe / 100
}

/// Whether the March-based year `yoe` of an era ends with a 29 February.
pub open spec fn march_leap(yoe: int) -> bool {
    (yoe + 1) % 4 == 0 && ((yoe + 1) % 100 != 0 || yoe == 399)
}

pub open spec fn year_len(yoe: int) -> int {
    if march_leap(yoe) {
        366
    } else {
        365
    }
}

/// The year of era that the algorithm reads off a day of era.
pub open spec fn yoe_of(doe: int) -> int {
    (doe - doe / 1460 + doe / 36524 - doe / 146096) / 365
}

/// First day (within a March-based year) of month `mp` (0 = March .. 11 = February).
pub open spec fn month_start(mp: int) -> int {
    (153 * mp + 2) / 5
}

pub open spec fn month_len(mp: int, leap: bool) -> int {
    if mp == 11 {
        if leap {
            29
        } else {
            28
        }
    } else if mp == 1 || mp == 3 || mp == 6 || mp == 8 {
        30
    } else {
        31
    }
}

/// The computation that `civil_from_days` performs, step by step.
pub open spec fn civil_alg(z: int) -> (int, int, int) {
    let z1 = z + 719468;
    let era = z1 / 146097;
    let doe = z1 % 146097;
    let yoe = yoe_of(doe);
    let y = yoe + era * 400;
    let doy = doe - year_start(yoe);
    let mp = (5 * doy + 2) / 153;
    let d = doy - month_start(mp) + 1;
    let m = if mp < 10 {
        mp + 3
    } else {
        mp - 9
    };
    (if m <= 2 {
        y + 1
    } else {
        y
    }, m, d)
}

#[verifier::spinoff_prover]
#[verifier::rlimit(50)]
/// Each day of a year of era is read back as that year.
proof fn lemma_yoe_of_year_day(y: int, k: int)
    requires
        0 <= y < 400,
        0 <= k < year_len(y),
    ensures
        0 <= year_start(y) + k < 146097,
        yoe_of(year_start(y) + k) == y,
{
    let c = y / 100;
    let q = (y % 100) / 4;
    let r = y % 4;
    assert(y == 100 * c + 4 * q + r);
    assert(0 <= c <= 3 && 0 <= q <= 24 && 0 <= r <= 3);
    assert(y / 4 == 25 * c + q);
    assert(y / 100 == c);
    let doe = year_start(y) + k;
    assert(doe == 36524 * c + 1461 * q + 365 * r + k);
    let t = 24 * c + q + 365 * r + k;
    assert(doe == 1460 * (25 * c + q) + t);
    assert(0 <= t < 2 * 1460);
    assert(doe / 1460 == 25 * c + q + (if t >= 1460 { 1int } else { 0 }));
    let u = 1461 * q + 365 * r + k;
    assert(0 <= u <= 36524);
    assert(u == 36524 ==> c == 3);
    assert(doe / 36524 == c + (if u == 36524 { 1int } else { 0 }));
    assert(doe / 146096 == (if u == 36524 { 1int } else { 0 }));
    let g = doe - doe / 1460 + doe / 36524 - doe / 146096;
    assert(g == 365 * y + k - (if t >= 1460 { 1int } else { 0 }));
    assert(k == 365 ==> t >= 1460);
    assert(t >= 1460 ==> k >= 1);
}

#[verifier::spinoff_prover]
#[verifier::rlimit(50)]
/// Every day of an era falls in some year of that era.
proof fn lemma_split_day_of_era(doe: int) -> (r: (int, int))
    requires
        0 <= doe < 146097,
    ensures
        0 <= r.0 < 400,
        0 <= r.1 < year_len(r.0),
        year_start(r.0) + r.1 == doe,
{
    let c = if doe / 36524 > 3 {
        3
    } else {
        doe / 36524
    };
    let rem1 = doe - 36524 * c;
    assert(0 <= rem1 <= 36524);
    let q = rem1 / 1461;
    assert(0 <= q <= 24);
    let rem2 = rem1 - 1461 * q;
    assert(0 <= rem2 <= 1460);
    let r = if rem2 / 365 > 3 {
        3
    } else {
        rem2 / 365
    };
    let k = rem2 - 365 * r;
    assert(0 <= k <= 365);
    let y = 100 * c + 4 * q + r;
    assert(y / 4 == 25 * c + q);
    assert(y / 100 == c);
    assert(year_start(y) + k == doe);
    assert(k == 365 ==> rem2 == 1460);
    assert(q == 24 ==> rem1 >= 35064);
    assert(rem2 == 1460 ==> (q < 24 || rem1 == 36524));
    assert(rem1 == 36524 ==> c == 3);
    (y, k)
}

/// The algorithm's year of era for a day of era, and the day's place in that year.
proof fn lemma_yoe_of(doe: int)
    requires
        0 <= doe < 146097,
    ensures
        0 <= yoe_of(doe) < 400,
        year_start(yoe_of(doe)) <= doe,
        doe < year_start(yoe_of(doe)) + year_len(yoe_of(doe)),
{
    let (y, k) = lemma_split_day_of_era(doe);
    lemma_yoe_of_year_day(y, k);
}

#[verifier::spinoff_prover]
#[verifier::rlimit(50)]
/// The month that the algorithm reads off a day of a March-based year.
proof fn lemma_month_of_day(doy: int, leap: bool)
    requires
        0 <= doy < (if leap { 366int } else { 365 }),
    ensures
        0 <= (5 * doy + 2) / 153 <= 11,
        month_start((5 * doy + 2) / 153) <= doy,
        doy < month_start((5 * doy + 2) / 153) + month_len((5 * doy + 2) / 153, leap),
{
    let mp = (5 * doy + 2) / 153;
    assert(153 * mp <= 5 * doy + 2 < 153 * mp + 153);
    assert(0 <= mp <= 11);
    if mp == 0 {
        assert(month_start(mp) == 0);
    } else if mp == 1 {
        assert(month_start(mp) == 31);
    } else if mp == 2 {
        assert(month_start(mp) == 61);
    } else if mp == 3 {
        assert(month_start(mp) == 92);
    } else if mp == 4 {
        assert(month_start(mp) == 122);
    } else if mp == 5 {
        assert(month_start(mp) == 153);
    } else if mp == 6 {
        assert(month_start(mp) == 184);
    } else if mp == 7 {
        assert(month_start(mp) == 214);
    } else if mp == 8 {
        assert(month_start(mp) == 245);
    } else if mp == 9 {
        assert(month_start(mp) == 275);
    } else if mp == 10 {
        assert(month_start(mp) == 306);
    } else {
        assert(month_start(mp) == 337);
    }
}

#[verifier::spinoff_prover]
#[verifier::rlimit(50)]
/// The day that the algorithm returns for `z` is a valid date, and it has day number `z`.
pub proof fn lemma_civil_alg(z: int)
    ensures
        valid_date(civil_alg(z).0, civil_alg(z).1, civil_alg(z).2),
        days_from_civil_spec(civil_alg(z).0, civil_alg(z).1, civil_alg(z).2) == z,
{
    let z1 = z + 719468;
    let era = z1 / 146097;
    let doe = z1 % 146097;
    lemma_yoe_of(doe);
    let yoe = yoe_of(doe);
    let y = yoe + era * 400;
    let doy = doe - year_start(yoe);
    let leap = march_leap(yoe);
    lemma_month_of_day(doy, leap);
    let mp = (5 * doy + 2) / 153;
    let d = doy - month_start(mp) + 1;
    let m = if mp < 10 {
        mp + 3
    } else {
        mp - 9
    };
    let yy = if m <= 2 {
        y + 1
    } else {
        y
    };
    assert(civil_alg(z) == (yy, m, d));
    // the leap day of a March-based year belongs to the civil year that follows it
    assert(is_leap(y + 1) == leap) by {
        assert((y + 1) % 4 == (yoe + 1) % 4);
        assert((y + 1) % 100 == (yoe + 1) % 100);
        assert((y + 1) % 400 == (yoe + 1) % 400);
    }
    assert(days_in_month(yy, m) == month_len(mp, leap));
    let y1 = if m <= 2 {
        yy - 1
    } else {
        yy
    };
    assert(y1 == y);
    assert(y1 / 400 == era);
    assert(y1 % 400 == yoe);
    assert((if m > 2 {
        m - 3
    } else {
        m + 9
    }) == mp);
}

#[verifier::spinoff_prover]
#[verifier::rlimit(50)]
/// A valid date is read back from its day number.
pub proof fn lemma_civil_alg_of_date(y: int, m: int, d: int)
    requires
        valid_date(y, m, d),
    ensures
        civil_alg(days_from_civil_spec(y, m, d)) == (y, m, d),
{
    let y1 = if m <= 2 {
        y - 1
    } else {
        y
    };
    let era = y1 / 400;
    let yoe = y1 % 400;
    let mp = if m > 2 {
        m - 3
    } else {
        m + 9
    };
    let doy = month_start(mp) + d - 1;
    let leap = march_leap(yoe);
    assert(is_leap(y1 + 1) == leap) by {
        assert((y1 + 1) % 4 == (yoe + 1) % 4);
        assert((y1 + 1) % 100 == (yoe + 1) % 100);
        assert((y1 + 1) % 400 == (yoe + 1) % 400);
    }
    assert(month_len(mp, leap) == days_in_month(y, m));
    assert(0 <= mp <= 11);
    lemma_month_bounds(mp, leap);
    assert(0 <= doy < year_len(yoe));
    lemma_yoe_of_year_day(yoe, doy);
    let doe = year_start(yoe) + doy;
    let z = days_from_civil_spec(y, m, d);
    assert(z + 719468 == era * 146097 + doe);
    assert((z + 719468) / 146097 == era);
    assert((z + 719468) % 146097 == doe);
    lemma_month_of_day(doy, leap);
    lemma_month_unique(mp, (5 * doy + 2) / 153, doy, leap);
}

pub proof fn lemma_month_bounds(mp: int, leap: bool)
    requires
        0 <= mp <= 11,
    ensures
        month_start(mp) + month_len(mp, leap) <= (if leap { 366int } else { 365 }),
        mp < 11 ==> month_start(mp) + month_len(mp, leap) == month_start(mp + 1),
{
}

proof fn lemma_month_unique(a: int, b: int, doy: int, leap: bool)
    requires
        0 <= a <= 11,
        0 <= b <= 11,
        month_start(a) <= doy < month_start(a) + month_len(a, leap),
        month_start(b) <= doy < month_start(b) + month_len(b, leap),
    ensures
        a == b,
{
    lemma_month_bounds(a, leap);
    lemma_month_bounds(b, leap);
}

/// The day-number/date correspondence, for every day number `z`: `civil_from_days_spec(z)`
/// (what `util`'s `civil_from_days` returns) is a valid date (month 1 to 12, day 1 to the
/// month's length), the one whose day number `days_from_civil_spec` (what `util`'s
/// `days_from_civil` returns) gives as `z`; and every valid date is recovered from its
/// day number.
pub proof fn lemma_civil_from_days(z: int)
    ensures
        civil_from_days_spec(z) == civil_alg(z),
        valid_date(civil_from_days_spec(z).0, civil_from_days_spec(z).1, civil_from_days_spec(z).2),
        days_from_civil_spec(
            civil_from_days_spec(z).0,
            civil_from_days_spec(z).1,
            civil_from_days_spec(z).2,
        ) == z,
{
    lemma_civil_alg(z);
    let t = civil_from_days_spec(z);
    assert(valid_date(t.0, t.1, t.2) && days_from_civil_spec(t.0, t.1, t.2) == z);
    lemma_civil_alg_of_date(t.0, t.1, t.2);
}


#[verifier::spinoff_prover]
#[verifier::rlimit(50)]
/// Dates with day numbers from -999-01-01 up to (not including) 10000-01-01 have years
/// from -999 to 9999, and those from 0000-01-01 on have years of four digits.
pub proof fn lemma_four_digit_year(y: int, m: int, d: int)
    requires
        valid_date(y, m, d),
        -1084405 <= days_from_civil_spec(y, m, d) < 2932897,
    ensures
        -999 <= y <= 9999,
        days_from_civil_spec(y, m, d) >= -719528 ==> y >= 0,
{
    let y1 = if m <= 2 {
        y - 1
    } else {
        y
    };
    let era = y1 / 400;
    let yoe = y1 % 400;
    let mp = if m > 2 {
        m - 3
    } else {
        m + 9
    };
    lemma_month_bounds(mp, is_leap(y));
    assert(0 <= month_start(mp) + d - 1 < 366);
    assert(m > 2 ==> month_start(mp) + d - 1 <= 305) by {
        if m > 2 {
            assert(mp <= 9);
            lemma_month_bounds(9, is_leap(y));
        }
    }
    if y < 0 {
        assert(era <= -1);
        if era == -1 {
            assert(m <= 2 ==> yoe <= 398);
        }
    }
    if y < -999 {
        assert(era <= -3);
        if era == -3 {
            assert(yoe <= 200);
            assert(m <= 2 ==> yoe <= 199);
        }
    }
    if y > 9999 {
        assert(era >= 25);
    }
}

} // verus!
