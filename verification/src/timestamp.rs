//! UTC timestamps in the Gregorian calendar.
use crate::text::{concat, decimal, number_text};
use vstd::arithmetic::div_mod::lemma_fundamental_div_mod;
use vstd::arithmetic::div_mod::lemma_fundamental_div_mod_converse;
use vstd::prelude::*;

verus! {

/// Whether a year of the Gregorian calendar has a leap day.
pub open spec fn leap(year: int) -> bool {
    year % 4 == 0 && (year % 100 != 0 || year % 400 == 0)
}

/// The days of a month.
pub open spec fn month_days(year: int, month: int) -> int {
    if month == 2 {
        if leap(year) {
            29
        } else {
            28
        }
    } else if month == 4 || month == 6 || month == 9 || month == 11 {
        30
    } else {
        31
    }
}

/// Whether a day stands in the calendar.
pub open spec fn is_date(year: int, month: int, day: int) -> bool {
    1 <= month <= 12 && 1 <= day <= month_days(year, month)
}

/// The leap days from the start of year one to the start of a year.
pub open spec fn leap_days_before(year: int) -> int {
    (year - 1) / 4 - (year - 1) / 100 + (year - 1) / 400
}

/// The days from the first of January 1970 to the first of January of a year.
pub open spec fn year_start(year: int) -> int {
    365 * (year - 1970) + leap_days_before(year) - leap_days_before(1970)
}

/// The days of a year before one of its months.
pub open spec fn month_start(year: int, month: int) -> int
    decreases month,
{
    if month <= 1 {
        0
    } else {
        month_start(year, month - 1) + month_days(year, month - 1)
    }
}

/// The days from the first of January 1970 to a date.
pub open spec fn day_number(year: int, month: int, day: int) -> int {
    year_start(year) + month_start(year, month) + day - 1
}

pub proof fn month_starts(year: int)
    ensures
        month_start(year, 1) == 0,
        month_start(year, 2) == 31,
        month_start(year, 3) == if leap(year) { 60int } else { 59int },
        month_start(year, 4) == month_start(year, 3) + 31,
        month_start(year, 5) == month_start(year, 3) + 61,
        month_start(year, 6) == month_start(year, 3) + 92,
        month_start(year, 7) == month_start(year, 3) + 122,
        month_start(year, 8) == month_start(year, 3) + 153,
        month_start(year, 9) == month_start(year, 3) + 184,
        month_start(year, 10) == month_start(year, 3) + 214,
        month_start(year, 11) == month_start(year, 3) + 245,
        month_start(year, 12) == month_start(year, 3) + 275,
{
    reveal_with_fuel(month_start, 13);
}

/// The start of a year, counted in spans of four hundred, a hundred, four and one years.
#[verifier::spinoff_prover]
#[verifier::rlimit(60)]
proof fn year_starts(era: int, century: int, quad: int, rest: int)
    requires
        0 <= century <= 3,
        0 <= quad <= 24,
        0 <= rest <= 3,
    ensures
        ({
            let year = 400 * era + 100 * century + 4 * quad + rest;
            &&& year_start(year + 1) == 146097 * era + 36524 * century + 1461 * quad + 365 * rest
                - 719162
            &&& leap(year + 1) <==> rest == 3 && (quad < 24 || century == 3)
        }),
{
    let year = 400 * era + 100 * century + 4 * quad + rest;
    assert(year / 4 == 100 * era + 25 * century + quad);
    assert(year / 100 == 4 * era + century);
    assert(year / 400 == era);
    assert(1969int / 4 == 492 && 1969int / 100 == 19 && 1969int / 400 == 4);
}

proof fn march_starts(era: int, century: int, quad: int, rest: int)
    requires
        0 <= century <= 3,
        0 <= quad <= 24,
        0 <= rest <= 3,
    ensures
        ({
            let year = 400 * era + 100 * century + 4 * quad + rest;
            &&& year_start(year) + month_start(year, 3) == 146097 * era + 36524 * century + 1461 * quad
                + 365 * rest - 719468
            &&& year_start(year + 1) == 146097 * era + 36524 * century + 1461 * quad + 365 * rest
                - 719468 + 306
            &&& leap(year + 1) <==> rest == 3 && (quad < 24 || century == 3)
        }),
{
    let year = 400 * era + 100 * century + 4 * quad + rest;
    year_starts(era, century, quad, rest);
    month_starts(year);
    if rest > 0 {
        year_starts(era, century, quad, rest - 1);
        assert(!leap(year)) by {
            assert(year % 4 == rest);
        }
    } else if quad > 0 {
        year_starts(era, century, quad - 1, 3);
    } else if century > 0 {
        year_starts(era, century - 1, 24, 3);
    } else {
        year_starts(era - 1, 3, 24, 3);
    }
}

pub proof fn next_year(year: int)
    ensures
        year_start(year + 1) == year_start(year) + 365 + if leap(year) {
            1int
        } else {
            0int
        },
{
}

pub proof fn years_in_order(early: int, late: int)
    requires
        early <= late,
    ensures
        year_start(early) <= year_start(late),
    decreases late - early,
{
    if early < late {
        years_in_order(early, late - 1);
        next_year(late - 1);
    }
}

pub proof fn date_in_year(year: int, month: int, day: int)
    requires
        is_date(year, month, day),
    ensures
        year_start(year) <= day_number(year, month, day) < year_start(year + 1),
{
    month_starts(year);
    next_year(year);
}

/// No two dates are the same day.
pub proof fn dates_are_distinct(a: (int, int, int), b: (int, int, int))
    requires
        is_date(a.0, a.1, a.2),
        is_date(b.0, b.1, b.2),
        day_number(a.0, a.1, a.2) == day_number(b.0, b.1, b.2),
    ensures
        a == b,
{
    date_in_year(a.0, a.1, a.2);
    date_in_year(b.0, b.1, b.2);
    if a.0 < b.0 {
        years_in_order(a.0 + 1, b.0);
    } else if b.0 < a.0 {
        years_in_order(b.0 + 1, a.0);
    }
    month_starts(a.0);
}

/// Every day has the day after it: the next of the month, or the first of the next month.
pub proof fn days_follow_each_other(year: int, month: int, day: int)
    requires
        is_date(year, month, day),
    ensures
        day < month_days(year, month) ==> is_date(year, month, day + 1) && day_number(year, month, day + 1)
            == day_number(year, month, day) + 1,
        day == month_days(year, month) && month < 12 ==> is_date(year, month + 1, 1) && day_number(
            year,
            month + 1,
            1,
        ) == day_number(year, month, day) + 1,
        day == month_days(year, month) && month == 12 ==> is_date(year + 1, 1, 1) && day_number(
            year + 1,
            1,
            1,
        ) == day_number(year, month, day) + 1,
{
    month_starts(year);
    next_year(year);
}

/// The date of a day.
pub open spec fn civil(days: int) -> (int, int, int) {
    choose|date: (int, int, int)|
        #![trigger is_date(date.0, date.1, date.2)]
        is_date(date.0, date.1, date.2) && day_number(date.0, date.1, date.2) == days
}

proof fn civil_is(days: int, year: int, month: int, day: int)
    requires
        is_date(year, month, day),
        day_number(year, month, day) == days,
    ensures
        civil(days) == (year, month, day),
{
    let date = (year, month, day);
    assert(is_date(date.0, date.1, date.2));
    dates_are_distinct(date, civil(days));
}

/// The quotient of a number by a positive number, rounded down.
fn floor_div(a: i64, b: i64) -> (q: i64)
    requires
        b > 0,
    ensures
        q == a as int / b as int,
{
    if a >= 0 {
        (a as u64 / b as u64) as i64
    } else {
        let n: u64 = (-(a + 1)) as u64;
        let k: u64 = n / b as u64;
        proof {
            lemma_fundamental_div_mod(n as int, b as int);
            let r = n as int % b as int;
            assert(a as int == (-k - 1) * b + (b - 1 - r)) by (nonlinear_arith)
                requires
                    n == -(a + 1),
                    n == b * k + r,
            ;
            lemma_fundamental_div_mod_converse(a as int, b as int, -k - 1, b - 1 - r);
            assert(k <= n) by (nonlinear_arith)
                requires
                    n == b * k + r,
                    b > 0,
                    r >= 0,
            ;
        }
        -(k as i64) - 1
    }
}

/// The days from the first of March to the first of a month.
spec fn march_offset(month: int) -> int {
    if month == 3 {
        0
    } else if month == 4 {
        31
    } else if month == 5 {
        61
    } else if month == 6 {
        92
    } else if month == 7 {
        122
    } else if month == 8 {
        153
    } else if month == 9 {
        184
    } else if month == 10 {
        214
    } else if month == 11 {
        245
    } else if month == 12 {
        275
    } else if month == 1 {
        306
    } else {
        337
    }
}

/// The month and the day of a day that is counted from the first of March.
fn day_of_march_year(doy: i64) -> (date: (i64, i64))
    requires
        0 <= doy <= 365,
    ensures
        1 <= date.0 <= 12,
        1 <= date.1 <= if date.0 == 2 { 29int } else { month_days(1970, date.0 as int) },
        march_offset(date.0 as int) + date.1 - 1 == doy,
{
    let mp: i64 = ((5 * doy + 2) as u64 / 153) as i64;
    let day: i64 = doy - ((153 * mp + 2) as u64 / 5) as i64 + 1;
    let month: i64 = if mp < 10 {
        mp + 3
    } else {
        mp - 9
    };
    (month, day)
}

/// The day of a date that is counted from the first of March of a year in the first months of which
/// the count belongs to the year before.
proof fn march_day_number(era: int, century: int, quad: int, rest: int, doy: int, month: int, day: int)
    requires
        0 <= century <= 3,
        0 <= quad <= 24,
        0 <= rest <= 3,
        0 <= doy <= 365,
        doy == 365 ==> rest == 3 && (quad < 24 || century == 3),
        1 <= month <= 12,
        1 <= day <= if month == 2 { 29int } else { month_days(1970, month) },
        march_offset(month) + day - 1 == doy,
    ensures
        ({
            let march_year = 400 * era + 100 * century + 4 * quad + rest;
            let year = if month <= 2 { march_year + 1 } else { march_year };
            &&& is_date(year, month, day)
            &&& day_number(year, month, day) == 146097 * era + 36524 * century + 1461 * quad + 365 * rest
                + doy - 719468
        }),
{
    let march_year = 400 * era + 100 * century + 4 * quad + rest;
    march_starts(era, century, quad, rest);
    month_starts(march_year);
    month_starts(march_year + 1);
}

/// Every day stands in the calendar.
pub proof fn day_stands(days: int)
    ensures
        is_date(civil(days).0, civil(days).1, civil(days).2),
        day_number(civil(days).0, civil(days).1, civil(days).2) == days,
{
    let z = days + 719468;
    let era = z / 146097;
    let doe = z - era * 146097;
    let century = if doe >= 109572 {
        3
    } else {
        doe / 36524
    };
    let doc = doe - century * 36524;
    let quad = doc / 1461;
    let doq = doc - quad * 1461;
    let rest = if doq >= 1095 {
        3
    } else {
        doq / 365
    };
    let doy = doq - rest * 365;
    let mp = (5 * doy + 2) / 153;
    let day = doy - (153 * mp + 2) / 5 + 1;
    let month = if mp < 10 {
        mp + 3
    } else {
        mp - 9
    };
    march_day_number(era, century, quad, rest, doy, month, day);
    let march_year = 400 * era + 100 * century + 4 * quad + rest;
    let year = if month <= 2 {
        march_year + 1
    } else {
        march_year
    };
    civil_is(days, year, month, day);
}

/// The date of a day, which is given by its distance from the first of January 1970.
pub fn civil_from_days(days: i64) -> (date: (i64, u32, u32))
    requires
        days <= i64::MAX - 719468,
    ensures
        is_date(date.0 as int, date.1 as int, date.2 as int),
        day_number(date.0 as int, date.1 as int, date.2 as int) == days,
        civil(days as int) == (date.0 as int, date.1 as int, date.2 as int),
{
    let z: i64 = days + 719468;
    let era: i64 = floor_div(z, 146097);
    let doe: i64 = z - era * 146097;
    let century: i64 = if doe >= 109572 {
        3
    } else {
        (doe as u64 / 36524) as i64
    };
    let doc: i64 = doe - century * 36524;
    let quad: i64 = (doc as u64 / 1461) as i64;
    let doq: i64 = doc - quad * 1461;
    let rest: i64 = if doq >= 1095 {
        3
    } else {
        (doq as u64 / 365) as i64
    };
    let doy: i64 = doq - rest * 365;
    let (month, day) = day_of_march_year(doy);
    let march_year: i64 = era * 400 + century * 100 + quad * 4 + rest;
    let year: i64 = if month <= 2 {
        march_year + 1
    } else {
        march_year
    };
    proof {
        march_day_number(
            era as int,
            century as int,
            quad as int,
            rest as int,
            doy as int,
            month as int,
            day as int,
        );
        civil_is(days as int, year as int, month as int, day as int);
    }
    (year, month as u32, day as u32)
}

/// A number in at least `width` digits.
pub open spec fn padded(n: nat, width: nat) -> Seq<char> {
    let digits = decimal(n);
    if digits.len() < width {
        Seq::new((width - digits.len()) as nat, |i: int| '0') + digits
    } else {
        digits
    }
}

/// The number in at least `width` digits.
pub fn padded_text(n: u64, width: usize) -> (s: String)
    ensures
        s@ == padded(n as nat, width as nat),
{
    let digits = number_text(n);
    let len: usize = digits.as_str().unicode_len();
    if len >= width {
        return digits;
    }
    let mut zeros = String::new();
    let mut k: usize = 0;
    while k < width - len
        invariant
            len < width,
            k <= width - len,
            zeros@ == Seq::new(k as nat, |i: int| '0'),
        decreases width - len - k,
    {
        zeros.push('0');
        k = k + 1;
        assert(zeros@ =~= Seq::new(k as nat, |i: int| '0'));
    }
    concat(zeros.as_str(), digits.as_str())
}

/// A year in at least four characters, its sign counted in.
pub open spec fn year_text(year: int) -> Seq<char> {
    if year < 0 {
        seq!['-'] + padded((-year) as nat, 3)
    } else {
        padded(year as nat, 4)
    }
}

/// The seconds of a time in milliseconds, taken as a signed number of sixty-four bits.
pub open spec fn epoch_seconds(epoch_ms: nat) -> int {
    let secs = (epoch_ms / 1000) % 0x1_0000_0000_0000_0000;
    if secs >= 0x8000_0000_0000_0000 {
        secs - 0x1_0000_0000_0000_0000
    } else {
        secs as int
    }
}

/// A time of day on a date, as ISO 8601 writes it.
pub open spec fn stamp(date: (int, int, int), second_of_day: nat, millis: nat) -> Seq<char> {
    year_text(date.0) + seq!['-'] + padded(date.1 as nat, 2) + seq!['-'] + padded(date.2 as nat, 2) + seq![
        'T',
    ] + padded(second_of_day / 3600, 2) + seq![':'] + padded(second_of_day % 3600 / 60, 2) + seq![':']
        + padded(second_of_day % 60, 2) + seq!['.'] + padded(millis, 3) + seq!['Z']
}

/// The timestamp of a time that is given in milliseconds since the start of 1970.
pub open spec fn timestamp_text(epoch_ms: nat) -> Seq<char> {
    let secs = epoch_seconds(epoch_ms);
    stamp(civil(secs / 86400), (secs % 86400) as nat, epoch_ms % 1000)
}

/// Writes the UTC time that is given in milliseconds since the start of 1970, such as
/// `2026-08-19T12:19:46.558Z`.
pub fn format_utc_timestamp_ms(epoch_ms: u128) -> (text: String)
    ensures
        text@ == timestamp_text(epoch_ms as nat),
{
    let millis: u64 = (epoch_ms % 1000) as u64;
    let whole: u128 = (epoch_ms / 1000) % 0x1_0000_0000_0000_0000;
    let secs: i64 = if whole >= 0x8000_0000_0000_0000 {
        (whole as i128 - 0x1_0000_0000_0000_0000) as i64
    } else {
        whole as i64
    };
    assert(secs == epoch_seconds(epoch_ms as nat));
    let days: i64 = floor_div(secs, 86400);
    let tod: u64 = (secs as i128 - days as i128 * 86400) as u64;
    assert(tod == secs as int % 86400);
    let (year, month, day) = civil_from_days(days);
    let mut text = if year < 0 {
        let mut minus = String::new();
        minus.push('-');
        assert(minus@ =~= seq!['-']);
        assert(year > i64::MIN) by {
            date_in_year(year as int, month as int, day as int);
            if year <= -9_000_000_000_000_000_000int {
                assert(year_start(year as int + 1) <= 365 * (year as int - 1969) + 1);
            }
        }
        let digits = padded_text((-year) as u64, 3);
        concat(minus.as_str(), digits.as_str())
    } else {
        padded_text(year as u64, 4)
    };
    text.push('-');
    text.append(padded_text(month as u64, 2).as_str());
    text.push('-');
    text.append(padded_text(day as u64, 2).as_str());
    text.push('T');
    text.append(padded_text(tod / 3600, 2).as_str());
    text.push(':');
    text.append(padded_text(tod % 3600 / 60, 2).as_str());
    text.push(':');
    text.append(padded_text(tod % 60, 2).as_str());
    text.push('.');
    text.append(padded_text(millis, 3).as_str());
    text.push('Z');
    assert(text@ =~= timestamp_text(epoch_ms as nat));
    text
}

} // verus!
