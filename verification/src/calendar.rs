//! Civil dates of the proleptic Gregorian calendar.

use vstd::prelude::*;
use vstd::string::*;

use crate::number::{pad_int, pad_text};

verus! {

/// A leap year has a 29th of February.
pub open spec fn leap(y: int) -> bool {
    y % 4 == 0 && (y % 100 != 0 || y % 400 == 0)
}

/// The number of days of month `m` of year `y`.
pub open spec fn month_days(y: int, m: int) -> int {
    if m == 2 {
        if leap(y) {
            29
        } else {
            28
        }
    } else if m == 4 || m == 6 || m == 9 || m == 11 {
        30
    } else {
        31
    }
}

/// `y-m-d` is a date of the calendar.
pub open spec fn valid_date(y: int, m: int, d: int) -> bool {
    1 <= m <= 12 && 1 <= d <= month_days(y, m)
}

/// Days from 0001-01-01 to the first day of year `y`: 365 for each year between
/// and one more for each leap year.
pub open spec fn days_before_year(y: int) -> int {
    365 * (y - 1) + (y - 1) / 4 - (y - 1) / 100 + (y - 1) / 400
}

/// Days of year `y` before month `m`.
pub open spec fn days_before_month(y: int, m: int) -> int
    decreases m,
{
    if m <= 1 {
        0
    } else {
        days_before_month(y, m - 1) + month_days(y, m - 1)
    }
}

/// Days from 1970-01-01 to `y-m-d`.
pub open spec fn day_number(y: int, m: int, d: int) -> int {
    days_before_year(y) - days_before_year(1970) + days_before_month(y, m) + (d - 1)
}

/// `y-m-d` is the date that lies `days` days after 1970-01-01.
pub open spec fn date_of_day(y: int, m: int, d: int, days: int) -> bool {
    valid_date(y, m, d) && day_number(y, m, d) == days
}

/// The date that lies `days` days after 1970-01-01.
pub open spec fn civil_date(days: int) -> (int, int, int) {
    choose|y: int, m: int, d: int| #[trigger] date_of_day(y, m, d, days)
}

proof fn lemma_month_table(y: int)
    ensures
        days_before_month(y, 1) == 0,
        days_before_month(y, 2) == 31,
        days_before_month(y, 3) == 31 + month_days(y, 2),
        days_before_month(y, 4) == 62 + month_days(y, 2),
        days_before_month(y, 5) == 92 + month_days(y, 2),
        days_before_month(y, 6) == 123 + month_days(y, 2),
        days_before_month(y, 7) == 153 + month_days(y, 2),
        days_before_month(y, 8) == 184 + month_days(y, 2),
        days_before_month(y, 9) == 215 + month_days(y, 2),
        days_before_month(y, 10) == 245 + month_days(y, 2),
        days_before_month(y, 11) == 276 + month_days(y, 2),
        days_before_month(y, 12) == 306 + month_days(y, 2),
        days_before_month(y, 13) == 337 + month_days(y, 2),
{
    reveal_with_fuel(days_before_month, 14);
}

proof fn lemma_year_length(y: int)
    ensures
        days_before_year(y + 1) == days_before_year(y) + 337 + month_days(y, 2),
{
    assert(y / 4 == (y - 1) / 4 + if y % 4 == 0 {
        1int
    } else {
        0
    });
    assert(y / 100 == (y - 1) / 100 + if y % 100 == 0 {
        1int
    } else {
        0
    });
    assert(y / 400 == (y - 1) / 400 + if y % 400 == 0 {
        1int
    } else {
        0
    });
    assert(y % 400 == 0 ==> y % 100 == 0) by {
        if y % 400 == 0 {
            let k = y / 400;
            assert(y == 100 * (4 * k));
        }
    }
    assert(y % 100 == 0 ==> y % 4 == 0) by {
        if y % 100 == 0 {
            let k = y / 100;
            assert(y == 4 * (25 * k));
        }
    }
}

proof fn lemma_year_monotonic(a: int, b: int)
    requires
        a <= b,
    ensures
        days_before_year(a) <= days_before_year(b),
    decreases b - a,
{
    if a < b {
        lemma_year_monotonic(a, b - 1);
        lemma_year_length(b - 1);
    }
}

proof fn lemma_day_in_year(y: int, m: int, d: int)
    requires
        valid_date(y, m, d),
    ensures
        0 <= days_before_month(y, m) + d - 1 < 337 + month_days(y, 2),
{
    lemma_month_table(y);
}

/// No two dates of the calendar lie equally far from 1970-01-01.
pub proof fn dates_are_distinct(y1: int, m1: int, d1: int, y2: int, m2: int, d2: int)
    requires
        valid_date(y1, m1, d1),
        valid_date(y2, m2, d2),
        day_number(y1, m1, d1) == day_number(y2, m2, d2),
    ensures
        y1 == y2 && m1 == m2 && d1 == d2,
{
    lemma_day_in_year(y1, m1, d1);
    lemma_day_in_year(y2, m2, d2);
    lemma_year_length(y1);
    lemma_year_length(y2);
    if y1 < y2 {
        lemma_year_monotonic(y1 + 1, y2);
    }
    if y2 < y1 {
        lemma_year_monotonic(y2 + 1, y1);
    }
    lemma_month_table(y1);
}

/// The one date that lies `days` days after 1970-01-01 is `civil_date(days)`.
pub proof fn civil_date_is(y: int, m: int, d: int, days: int)
    requires
        date_of_day(y, m, d, days),
    ensures
        civil_date(days) == (y, m, d),
{
    let (a, b, c) = civil_date(days);
    assert(date_of_day(a, b, c, days));
    dates_are_distinct(y, m, d, a, b, c);
}

/// The days of 400-year cycles before the `k`-th year of one, years beginning
/// in March.
spec fn cycle_days(k: int) -> int {
    365 * k + k / 4 - k / 100 + k / 400
}

#[verifier::spinoff_prover]
#[verifier::rlimit(30)]
proof fn lemma_year_of_cycle(doe: int, yoe: int)
    requires
        0 <= doe < 146097,
        yoe == (doe - doe / 1460 + doe / 36524 - doe / 146096) / 365,
    ensures
        0 <= yoe < 400,
        cycle_days(yoe) <= doe < cycle_days(yoe + 1),
{
    let c = doe / 36524;
    assert(c == 0 || c == 1 || c == 2 || c == 3 || c == 4);
}

/// The first of March of year `y`, counted from 0001-01-01.
proof fn lemma_march(y: int)
    ensures
        days_before_year(y) + 31 + month_days(y, 2) == cycle_days(y) - 306,
        days_before_year(y + 1) == cycle_days(y),
{
    lemma_year_length(y);
}

/// A whole number of 400-year cycles apart, years have the same shape.
proof fn lemma_cycles(era: int, yoe: int)
    requires
        0 <= yoe < 400,
    ensures
        cycle_days(yoe + era * 400) == 146_097 * era + cycle_days(yoe),
{
    let yy = yoe + era * 400;
    assert(yy / 4 == 100 * era + yoe / 4);
    assert(yy / 100 == 4 * era + yoe / 100);
    assert(yy / 400 == era + yoe / 400);
}

/// Day `doy` of a year that begins in March falls on day `d` of the month that
/// is `mp` months after March.
proof fn lemma_month_of_year(doy: int, mp: int, d: int)
    requires
        0 <= doy <= 365,
        mp == (5 * doy + 2) / 153,
        d == doy - (153 * mp + 2) / 5 + 1,
    ensures
        0 <= mp <= 11,
        1 <= d <= 31,
        mp == 0 ==> doy == d - 1,
        mp == 1 ==> doy == 31 + d - 1 && d <= 30,
        mp == 2 ==> doy == 61 + d - 1,
        mp == 3 ==> doy == 92 + d - 1 && d <= 30,
        mp == 4 ==> doy == 122 + d - 1,
        mp == 5 ==> doy == 153 + d - 1,
        mp == 6 ==> doy == 184 + d - 1 && d <= 30,
        mp == 7 ==> doy == 214 + d - 1,
        mp == 8 ==> doy == 245 + d - 1 && d <= 30,
        mp == 9 ==> doy == 275 + d - 1,
        mp == 10 ==> doy == 306 + d - 1,
        mp == 11 ==> doy == 337 + d - 1 && d <= 29,
{
}

#[verifier::spinoff_prover]
proof fn lemma_civil(z: int, era: int, yoe: int, doy: int, mp: int, d: int, y: int, m: int)
    requires
        0 <= yoe < 400,
        z == 146_097 * era + cycle_days(yoe) + doy,
        0 <= doy < cycle_days(yoe + 1) - cycle_days(yoe),
        mp == (5 * doy + 2) / 153,
        d == doy - (153 * mp + 2) / 5 + 1,
        m == if mp < 10 {
            mp + 3
        } else {
            mp - 9
        },
        y == yoe + era * 400 + if m <= 2 {
            1int
        } else {
            0
        },
    ensures
        date_of_day(y, m, d, z - 719_468),
{
    let y0 = yoe + era * 400;
    lemma_cycles(era, yoe);
    lemma_march(y0);
    lemma_month_table(y);
    assert(cycle_days(yoe + 1) - cycle_days(yoe) == 337 + month_days(y0 + 1, 2)) by {
        if yoe + 1 < 400 {
            lemma_cycles(era, yoe + 1);
        } else {
            lemma_cycles(era + 1, 0);
        }
        lemma_march(y0 + 1);
        lemma_march(y0);
        lemma_year_length(y0 + 1);
    }
    lemma_month_of_year(doy, mp, d);
    assert(days_before_year(1970) == 719_162);
}

/// Every day has a date.
pub proof fn every_day_has_a_date(days: int)
    ensures
        ({
            let (y, m, d) = civil_date(days);
            date_of_day(y, m, d, days)
        }),
{
    let z = days + 719_468;
    let era = z / 146_097;
    let doe = z % 146_097;
    let yoe = (doe - doe / 1460 + doe / 36524 - doe / 146096) / 365;
    lemma_year_of_cycle(doe, yoe);
    let doy = doe - cycle_days(yoe);
    let mp = (5 * doy + 2) / 153;
    let d = doy - (153 * mp + 2) / 5 + 1;
    let m = if mp < 10 {
        mp + 3
    } else {
        mp - 9
    };
    let y = yoe + era * 400 + if m <= 2 {
        1int
    } else {
        0
    };
    lemma_civil(z, era, yoe, doy, mp, d, y, m);
    assert(date_of_day(y, m, d, days));
}

/// The later of two days has the later date.
pub proof fn dates_are_ordered(y1: int, m1: int, d1: int, y2: int, m2: int, d2: int)
    requires
        valid_date(y1, m1, d1),
        valid_date(y2, m2, d2),
        day_number(y1, m1, d1) < day_number(y2, m2, d2),
    ensures
        y1 < y2 || (y1 == y2 && (m1 < m2 || (m1 == m2 && d1 < d2))),
{
    lemma_day_in_year(y1, m1, d1);
    lemma_day_in_year(y2, m2, d2);
    lemma_year_length(y2);
    if y2 < y1 {
        lemma_year_monotonic(y2 + 1, y1);
    }
    lemma_month_table(y1);
}

/// The days from 0000-01-01 to 9999-12-31 fall into years of four digits.
pub proof fn year_has_four_digits(y: int, m: int, d: int)
    requires
        valid_date(y, m, d),
        -719_528 <= day_number(y, m, d) <= 2_932_896,
    ensures
        0 <= y <= 9999,
{
    lemma_day_in_year(y, m, d);
    lemma_year_length(y);
    if y < 0 {
        lemma_year_monotonic(y + 1, 0);
    }
    if y > 9999 {
        lemma_year_monotonic(10_000, y);
    }
}

/// The date that lies `days` days after 1970-01-01.
#[verifier::spinoff_prover]
#[verifier::rlimit(30)]
fn civil_from_days(days: i64) -> (r: (i64, i64, i64))
    requires
        -200_000_000_000_000 <= days <= 200_000_000_000_000,
    ensures
        date_of_day(r.0 as int, r.1 as int, r.2 as int, days as int),
{
    let z: i64 = days + 719_468;
    let era: i64 = if z >= 0 {
        z / 146_097
    } else {
        -((146_096 - z) / 146_097)
    };
    assert(era == z as int / 146_097);
    let doe: i64 = z - era * 146_097;
    let yoe: i64 = (doe - doe / 1460 + doe / 36_524 - doe / 146_096) / 365;
    proof {
        lemma_year_of_cycle(doe as int, yoe as int);
    }
    let doy: i64 = doe - (365 * yoe + yoe / 4 - yoe / 100);
    let mp: i64 = (5 * doy + 2) / 153;
    proof {
        lemma_month_of_year(doy as int, mp as int, doy - (153 * mp + 2) / 5 + 1);
    }
    let d: i64 = doy - (153 * mp + 2) / 5 + 1;
    let m: i64 = if mp < 10 {
        mp + 3
    } else {
        mp - 9
    };
    let y: i64 = yoe + era * 400 + if m <= 2 {
        1
    } else {
        0
    };
    proof {
        lemma_civil(
            z as int,
            era as int,
            yoe as int,
            doy as int,
            mp as int,
            d as int,
            y as int,
            m as int,
        );
    }
    (y, m, d)
}

/// The second `secs` after 1970-01-01 00:00:00 UTC as `YYYY-MM-DD HH:MM:SS`,
/// with `sep` between the date and the time of day.
pub open spec fn utc_text(secs: int, sep: char) -> Seq<char> {
    let (y, m, d) = civil_date(secs / 86_400);
    let rem = secs % 86_400;
    pad_int(y, 4) + "-"@ + pad_int(m, 2) + "-"@ + pad_int(d, 2) + seq![sep] + pad_int(
        rem / 3600,
        2,
    ) + ":"@ + pad_int(rem % 3600 / 60, 2) + ":"@ + pad_int(rem % 60, 2)
}

/// The UTC date and time of day of the second `secs` after 1970-01-01 00:00:00.
pub fn utc_string(secs: i64, sep: char) -> (r: String)
    ensures
        r@ == utc_text(secs as int, sep),
{
    let days: i64 = if secs >= 0 {
        secs / 86_400
    } else {
        -1 - (-(secs + 1)) / 86_400
    };
    assert(days == secs as int / 86_400);
    let rem: i64 = if secs >= 0 {
        secs % 86_400
    } else {
        86_399 - (-(secs + 1)) % 86_400
    };
    assert(rem == secs as int % 86_400);
    let (y, m, d) = civil_from_days(days);
    proof {
        civil_date_is(y as int, m as int, d as int, days as int);
    }
    let mut out = pad_text(y, 4);
    out.append("-");
    out.append(pad_text(m, 2).as_str());
    out.append("-");
    out.append(pad_text(d, 2).as_str());
    let ghost date = out@;
    out.push(sep);
    assert(out@ =~= date + seq![sep]);
    out.append(pad_text(rem / 3600, 2).as_str());
    out.append(":");
    out.append(pad_text(rem % 3600 / 60, 2).as_str());
    out.append(":");
    out.append(pad_text(rem % 60, 2).as_str());
    out
}

} // verus!
