//! What holds of timestamps as texts.
use crate::text::{decimal, digit, digits_value};
use crate::timestamp::{
    civil, date_in_year, day_number, day_stands, epoch_seconds, is_date, month_starts, padded, stamp, timestamp_text,
    year_start, years_in_order,
};
use vstd::prelude::*;
use vstd::utf8::{encode_utf8, is_ascii_chars, is_ascii_chars_encode_utf8};

verus! {

/// The first millisecond of the year ten thousand.
pub const END_OF_FOUR_DIGITS: u64 = 253_402_300_800_000;

/// Whether one text stands before another in the order of their first characters that differ.
pub open spec fn stands_before(a: Seq<char>, b: Seq<char>) -> bool {
    exists|k: int| #[trigger] differs_first_at(a, b, k)
}

pub open spec fn differs_first_at(a: Seq<char>, b: Seq<char>, k: int) -> bool {
    0 <= k < a.len() && k < b.len() && a.take(k) == b.take(k) && a[k] < b[k]
}

/// Whether bytes stand before others in the order of the first bytes that differ.
pub open spec fn bytes_before(a: Seq<u8>, b: Seq<u8>) -> bool {
    exists|k: int| 0 <= k < a.len() && k < b.len() && #[trigger] a.take(k) == b.take(k) && a[k] < b[k]
}

proof fn before_goes_on(a: Seq<char>, b: Seq<char>, x: Seq<char>, y: Seq<char>)
    requires
        stands_before(a, b),
    ensures
        stands_before(a + x, b + y),
{
    let k = choose|k: int| #[trigger] differs_first_at(a, b, k);
    assert((a + x).take(k) =~= a.take(k));
    assert((b + y).take(k) =~= b.take(k));
    assert(differs_first_at(a + x, b + y, k));
}

proof fn same_start_goes_on(p: Seq<char>, x: Seq<char>, y: Seq<char>)
    requires
        stands_before(x, y),
    ensures
        stands_before(p + x, p + y),
{
    let k = choose|k: int| #[trigger] differs_first_at(x, y, k);
    assert((p + x).take(p.len() + k) =~= p + x.take(k));
    assert((p + y).take(p.len() + k) =~= p + y.take(k));
    assert(differs_first_at(p + x, p + y, p.len() + k));
}

spec fn power_of_ten(width: nat) -> nat
    decreases width,
{
    if width == 0 {
        1
    } else {
        10 * power_of_ten((width - 1) as nat)
    }
}

/// A number in a fixed number of digits.
spec fn digits_in(n: nat, width: nat) -> Seq<char>
    decreases width,
{
    if width == 0 {
        Seq::empty()
    } else {
        digits_in(n / 10, (width - 1) as nat).push(digit(n % 10))
    }
}

proof fn digits_of_nothing(width: nat)
    ensures
        digits_in(0, width) == Seq::new(width, |i: int| '0'),
    decreases width,
{
    if width > 0 {
        digits_of_nothing((width - 1) as nat);
        assert(digits_in(0, width) =~= Seq::new(width, |i: int| '0'));
    } else {
        assert(digits_in(0, width) =~= Seq::new(width, |i: int| '0'));
    }
}

proof fn padded_is_fixed(n: nat, width: nat)
    requires
        width > 0,
        n < power_of_ten(width),
    ensures
        padded(n, width) == digits_in(n, width),
        decimal(n).len() <= width,
    decreases width,
{
    let less = (width - 1) as nat;
    if n < 10 {
        digits_of_nothing(less);
        assert(n / 10 == 0);
        assert(decimal(n) =~= seq![digit(n)]);
        assert(padded(n, width) =~= digits_in(n, width));
    } else {
        if less == 0 {
            assert(power_of_ten(1) == 10) by {
                reveal_with_fuel(power_of_ten, 2);
            }
        }
        padded_is_fixed(n / 10, less);
        assert(decimal(n) == decimal(n / 10).push(digit(n % 10)));
        assert(padded(n, width) =~= padded(n / 10, less).push(digit(n % 10)));
    }
}

proof fn digits_are_plain(n: nat, width: nat)
    ensures
        digits_in(n, width).len() == width,
        forall|i: int| 0 <= i < width ==> '0' <= #[trigger] digits_in(n, width)[i] <= '9',
    decreases width,
{
    if width > 0 {
        digits_are_plain(n / 10, (width - 1) as nat);
    }
}

proof fn digits_in_order(m: nat, n: nat, width: nat)
    requires
        m < n,
        n < power_of_ten(width),
    ensures
        stands_before(digits_in(m, width), digits_in(n, width)),
    decreases width,
{
    if width > 0 {
        let less = (width - 1) as nat;
        let a = digits_in(m / 10, less);
        let b = digits_in(n / 10, less);
        digits_are_plain(m / 10, less);
        digits_are_plain(n / 10, less);
        assert(digits_in(m, width) =~= a + seq![digit(m % 10)]);
        assert(digits_in(n, width) =~= b + seq![digit(n % 10)]);
        if m / 10 < n / 10 {
            digits_in_order(m / 10, n / 10, less);
            before_goes_on(a, b, seq![digit(m % 10)], seq![digit(n % 10)]);
        } else {
            assert(m / 10 == n / 10 && m % 10 < n % 10);
            assert(digits_in(m, width).take(less as int) =~= digits_in(n, width).take(less as int));
            assert(differs_first_at(digits_in(m, width), digits_in(n, width), less as int));
        }
    }
}

/// A number of at most so many digits, written in as many.
proof fn fields_are_plain(n: nat, width: nat)
    requires
        0 < width <= 4,
        n < if width == 2 { 100nat } else if width == 3 { 1000 } else if width == 4 { 10000 } else { 10 },
    ensures
        n < power_of_ten(width),
        padded(n, width) == digits_in(n, width),
        padded(n, width).len() == width,
        forall|i: int| 0 <= i < width ==> '0' <= #[trigger] padded(n, width)[i] <= '9',
{
    reveal_with_fuel(power_of_ten, 5);
    padded_is_fixed(n, width);
    digits_are_plain(n, width);
}

proof fn fields_in_order(m: nat, n: nat, width: nat)
    requires
        m < n,
        0 < width <= 4,
        n < if width == 2 { 100nat } else if width == 3 { 1000 } else if width == 4 { 10000 } else { 10 },
    ensures
        stands_before(padded(m, width), padded(n, width)),
{
    fields_are_plain(m, width);
    fields_are_plain(n, width);
    digits_in_order(m, n, width);
}

/// Days in order are dates in order.
pub proof fn dates_are_in_order(a: (int, int, int), b: (int, int, int))
    requires
        is_date(a.0, a.1, a.2),
        is_date(b.0, b.1, b.2),
        day_number(a.0, a.1, a.2) < day_number(b.0, b.1, b.2),
    ensures
        a.0 < b.0 || (a.0 == b.0 && (a.1 < b.1 || (a.1 == b.1 && a.2 < b.2))),
{
    date_in_year(a.0, a.1, a.2);
    date_in_year(b.0, b.1, b.2);
    if b.0 < a.0 {
        years_in_order(b.0 + 1, a.0);
    }
    month_starts(a.0);
}

/// The date of a day from 1970 to the end of the year 9999.
proof fn four_digit_date(days: int)
    requires
        0 <= days < 2_932_897,
    ensures
        ({
            let date = civil(days);
            &&& is_date(date.0, date.1, date.2)
            &&& day_number(date.0, date.1, date.2) == days
            &&& 1970 <= date.0 <= 9999
        }),
{
    day_stands(days);
    let date = civil(days);
    date_in_year(date.0, date.1, date.2);
    assert(year_start(10000) == 2_932_897);
    assert(year_start(1970) == 0);
    if date.0 >= 10000 {
        years_in_order(10000, date.0);
    }
    if date.0 < 1970 {
        years_in_order(date.0 + 1, 1970);
    }
}

/// The fields of a timestamp one after another.
spec fn joined_fields(y: Seq<char>, mo: Seq<char>, d: Seq<char>, h: Seq<char>, mi: Seq<char>, s: Seq<char>, ms: Seq<char>) -> Seq<char> {
    y + (seq!['-'] + (mo + (seq!['-'] + (d + (seq!['T'] + (h + (seq![':'] + (mi + (seq![':'] + (s + (seq!['.'] + (ms + seq!['Z']))))))))))))
}

spec fn is_stamp(date: (int, int, int), second: nat, millis: nat) -> bool {
    &&& is_date(date.0, date.1, date.2)
    &&& 1970 <= date.0 <= 9999
    &&& second < 86400
    &&& millis < 1000
}

proof fn stamp_is_joined(date: (int, int, int), second: nat, millis: nat)
    requires
        is_stamp(date, second, millis),
    ensures
        stamp(date, second, millis) == joined_fields(
            padded(date.0 as nat, 4),
            padded(date.1 as nat, 2),
            padded(date.2 as nat, 2),
            padded(second / 3600, 2),
            padded(second % 3600 / 60, 2),
            padded(second % 60, 2),
            padded(millis, 3),
        ),
        stamp(date, second, millis).len() == 24,
        is_ascii_chars(stamp(date, second, millis)),
{
    let text = stamp(date, second, millis);
    fields_are_plain(date.0 as nat, 4);
    fields_are_plain(date.1 as nat, 2);
    fields_are_plain(date.2 as nat, 2);
    fields_are_plain(second / 3600, 2);
    fields_are_plain(second % 3600 / 60, 2);
    fields_are_plain(second % 60, 2);
    fields_are_plain(millis, 3);
    assert(text =~= joined_fields(
        padded(date.0 as nat, 4),
        padded(date.1 as nat, 2),
        padded(date.2 as nat, 2),
        padded(second / 3600, 2),
        padded(second % 3600 / 60, 2),
        padded(second % 60, 2),
        padded(millis, 3),
    ));
    assert forall|i: int| 0 <= i < text.len() implies '\0' <= #[trigger] text[i] <= '\u{7f}' by {}
}

/// One field and what stands behind it: order of the field decides, or what is behind where it is equal.
proof fn field_decides(m: nat, n: nat, width: nat, sep: char, x: Seq<char>, y: Seq<char>)
    requires
        0 < width <= 4,
        m < if width == 2 { 100nat } else if width == 3 { 1000 } else if width == 4 { 10000 } else { 10 },
        n < if width == 2 { 100nat } else if width == 3 { 1000 } else if width == 4 { 10000 } else { 10 },
        m < n || (m == n && stands_before(x, y)),
    ensures
        stands_before(padded(m, width) + (seq![sep] + x), padded(n, width) + (seq![sep] + y)),
{
    if m < n {
        fields_in_order(m, n, width);
        before_goes_on(padded(m, width), padded(n, width), seq![sep] + x, seq![sep] + y);
    } else {
        same_start_goes_on(seq![sep], x, y);
        same_start_goes_on(padded(m, width), seq![sep] + x, seq![sep] + y);
    }
}

/// The time of a day as the texts of its fields.
spec fn time_fields(h: nat, mi: nat, s: nat, ms: nat) -> Seq<char> {
    padded(h, 2) + (seq![':'] + (padded(mi, 2) + (seq![':'] + (padded(s, 2) + (seq!['.'] + (padded(ms, 3) + seq!['Z']))))))
}

proof fn times_in_order(ha: nat, ia: nat, sa: nat, ma: nat, hb: nat, ib: nat, sb: nat, mb: nat)
    requires
        ha < 100 && ia < 100 && sa < 100 && ma < 1000,
        hb < 100 && ib < 100 && sb < 100 && mb < 1000,
        ha < hb || (ha == hb && (ia < ib || (ia == ib && (sa < sb || (sa == sb && ma < mb))))),
    ensures
        stands_before(time_fields(ha, ia, sa, ma), time_fields(hb, ib, sb, mb)),
{
    let x3 = padded(ma, 3) + seq!['Z'];
    let y3 = padded(mb, 3) + seq!['Z'];
    let x2 = padded(sa, 2) + (seq!['.'] + x3);
    let y2 = padded(sb, 2) + (seq!['.'] + y3);
    let x1 = padded(ia, 2) + (seq![':'] + x2);
    let y1 = padded(ib, 2) + (seq![':'] + y2);
    if ha == hb {
        if ia == ib {
            if sa == sb {
                fields_in_order(ma, mb, 3);
                before_goes_on(padded(ma, 3), padded(mb, 3), seq!['Z'], seq!['Z']);
            }
            field_decides(sa, sb, 2, '.', x3, y3);
        }
        field_decides(ia, ib, 2, ':', x2, y2);
    }
    field_decides(ha, hb, 2, ':', x1, y1);
}

proof fn days_in_order(ya: nat, oa: nat, da: nat, x: Seq<char>, yb: nat, ob: nat, db: nat, y: Seq<char>)
    requires
        ya < 10000 && oa < 100 && da < 100,
        yb < 10000 && ob < 100 && db < 100,
        ya < yb || (ya == yb && (oa < ob || (oa == ob && (da < db || (da == db && stands_before(x, y)))))),
    ensures
        stands_before(
            padded(ya, 4) + (seq!['-'] + (padded(oa, 2) + (seq!['-'] + (padded(da, 2) + (seq!['T'] + x))))),
            padded(yb, 4) + (seq!['-'] + (padded(ob, 2) + (seq!['-'] + (padded(db, 2) + (seq!['T'] + y))))),
        ),
{
    let x2 = padded(da, 2) + (seq!['T'] + x);
    let y2 = padded(db, 2) + (seq!['T'] + y);
    let x1 = padded(oa, 2) + (seq!['-'] + x2);
    let y1 = padded(ob, 2) + (seq!['-'] + y2);
    if ya == yb {
        if oa == ob {
            field_decides(da, db, 2, 'T', x, y);
        }
        field_decides(oa, ob, 2, '-', x2, y2);
    }
    field_decides(ya, yb, 4, '-', x1, y1);
}

proof fn seconds_in_order(a: nat, b: nat)
    requires
        a < b < 86400,
    ensures
        a / 3600 < 24 && b / 3600 < 24 && a % 3600 / 60 < 60 && b % 3600 / 60 < 60,
        a / 3600 < b / 3600 || (a / 3600 == b / 3600 && (a % 3600 / 60 < b % 3600 / 60 || (a % 3600 / 60 == b % 3600 / 60
            && a % 60 < b % 60))),
{
}

proof fn stamps_in_order(a: (int, int, int), sa: nat, ma: nat, b: (int, int, int), sb: nat, mb: nat)
    requires
        is_stamp(a, sa, ma),
        is_stamp(b, sb, mb),
        day_number(a.0, a.1, a.2) < day_number(b.0, b.1, b.2) || (a == b && (sa < sb || (sa == sb && ma < mb))),
    ensures
        stands_before(stamp(a, sa, ma), stamp(b, sb, mb)),
{
    stamp_is_joined(a, sa, ma);
    stamp_is_joined(b, sb, mb);
    let (ha, ia, ca) = (sa / 3600, sa % 3600 / 60, sa % 60);
    let (hb, ib, cb) = (sb / 3600, sb % 3600 / 60, sb % 60);
    let x = time_fields(ha, ia, ca, ma);
    let y = time_fields(hb, ib, cb, mb);
    if day_number(a.0, a.1, a.2) < day_number(b.0, b.1, b.2) {
        dates_are_in_order(a, b);
    } else {
        if sa < sb {
            seconds_in_order(sa, sb);
        }
        times_in_order(ha, ia, ca, ma, hb, ib, cb, mb);
    }
    days_in_order(a.0 as nat, a.1 as nat, a.2 as nat, x, b.0 as nat, b.1 as nat, b.2 as nat, y);
}

/// Before the year ten thousand a timestamp has twenty-four bytes, and timestamps stand in the order of
/// their times.
pub proof fn timestamps_are_in_order(a: nat, b: nat)
    requires
        a < b < END_OF_FOUR_DIGITS,
    ensures
        encode_utf8(timestamp_text(a)).len() == 24,
        encode_utf8(timestamp_text(b)).len() == 24,
        bytes_before(encode_utf8(timestamp_text(a)), encode_utf8(timestamp_text(b))),
{
    let (sa, sb) = (epoch_seconds(a), epoch_seconds(b));
    assert(sa == a / 1000 && sb == b / 1000);
    let (da, db) = (sa / 86400, sb / 86400);
    four_digit_date(da);
    four_digit_date(db);
    stamp_is_joined(civil(da), (sa % 86400) as nat, a % 1000);
    stamp_is_joined(civil(db), (sb % 86400) as nat, b % 1000);
    stamps_in_order(civil(da), (sa % 86400) as nat, a % 1000, civil(db), (sb % 86400) as nat, b % 1000);
    let (x, y) = (timestamp_text(a), timestamp_text(b));
    is_ascii_chars_encode_utf8(x);
    is_ascii_chars_encode_utf8(y);
    let k = choose|k: int| #[trigger] differs_first_at(x, y, k);
    let (p, q) = (encode_utf8(x), encode_utf8(y));
    assert forall|i: int| 0 <= i < k implies p[i] == q[i] by {
        assert(x.take(k)[i] == y.take(k)[i]);
    }
    assert(p.take(k) =~= q.take(k));
    assert(p[k] == x[k] as u8 && q[k] == y[k] as u8);
}

proof fn digits_stand_for_the_number(n: nat, width: nat)
    requires
        0 < width <= 4,
        n < if width == 2 { 100nat } else if width == 3 { 1000 } else if width == 4 { 10000 } else { 10 },
    ensures
        digits_value(padded(n, width)) == n,
{
    let digits = decimal(n);
    crate::text_laws::decimal_texts_stand_for_their_numbers(n);
    if digits.len() < width {
        zeros_add_nothing((width - digits.len()) as nat, digits);
    }
}

proof fn zeros_add_nothing(count: nat, digits: Seq<char>)
    ensures
        digits_value(Seq::new(count, |i: int| '0') + digits) == digits_value(digits),
    decreases digits.len(), count,
{
    let zeros = Seq::new(count, |i: int| '0');
    let all = zeros + digits;
    if digits.len() > 0 {
        zeros_add_nothing(count, digits.drop_last());
        assert(all.drop_last() =~= zeros + digits.drop_last());
        assert(all.last() == digits.last());
    } else if count > 0 {
        let fewer = Seq::new((count - 1) as nat, |i: int| '0');
        zeros_add_nothing((count - 1) as nat, digits);
        assert(all.drop_last() =~= fewer + digits);
    } else {
        assert(all =~= digits);
    }
}

/// A timestamp says the day, the hour, the minute, the second and the millisecond of its time.
pub proof fn timestamps_tell_their_times(ms: nat)
    requires
        ms < END_OF_FOUR_DIGITS,
    ensures
        ({
            let text = timestamp_text(ms);
            let year = digits_value(text.subrange(0, 4)) as int;
            let month = digits_value(text.subrange(5, 7)) as int;
            let day = digits_value(text.subrange(8, 10)) as int;
            let hour = digits_value(text.subrange(11, 13));
            let minute = digits_value(text.subrange(14, 16));
            let second = digits_value(text.subrange(17, 19));
            let millis = digits_value(text.subrange(20, 23));
            &&& text.len() == 24
            &&& is_date(year, month, day)
            &&& hour < 24 && minute < 60 && second < 60 && millis < 1000
            &&& day_number(year, month, day) * 86_400_000 + hour * 3_600_000 + minute * 60_000 + second * 1000 + millis == ms
        }),
{
    let secs = epoch_seconds(ms);
    assert(secs == ms / 1000);
    let days = secs / 86400;
    four_digit_date(days);
    let date = civil(days);
    let s = (secs % 86400) as nat;
    let text = timestamp_text(ms);
    stamp_is_joined(date, s, ms % 1000);
    let (y, mo, d) = (padded(date.0 as nat, 4), padded(date.1 as nat, 2), padded(date.2 as nat, 2));
    let (h, mi, sec) = (padded(s / 3600, 2), padded(s % 3600 / 60, 2), padded(s % 60, 2));
    let milli = padded(ms % 1000, 3);
    assert(date.2 <= 31);
    fields_are_plain(date.0 as nat, 4);
    fields_are_plain(date.1 as nat, 2);
    fields_are_plain(date.2 as nat, 2);
    fields_are_plain(s / 3600, 2);
    fields_are_plain(s % 3600 / 60, 2);
    fields_are_plain(s % 60, 2);
    fields_are_plain(ms % 1000, 3);
    assert(text.subrange(0, 4) =~= y);
    assert(text.subrange(5, 7) =~= mo);
    assert(text.subrange(8, 10) =~= d);
    assert(text.subrange(11, 13) =~= h);
    assert(text.subrange(14, 16) =~= mi);
    assert(text.subrange(17, 19) =~= sec);
    assert(text.subrange(20, 23) =~= milli);
    digits_stand_for_the_number(date.0 as nat, 4);
    digits_stand_for_the_number(date.1 as nat, 2);
    digits_stand_for_the_number(date.2 as nat, 2);
    digits_stand_for_the_number(s / 3600, 2);
    digits_stand_for_the_number(s % 3600 / 60, 2);
    digits_stand_for_the_number(s % 60, 2);
    digits_stand_for_the_number(ms % 1000, 3);
    assert(s == (s / 3600) * 3600 + (s % 3600 / 60) * 60 + s % 60);
    assert(secs == days * 86400 + s);
    assert(ms == secs * 1000 + ms % 1000);
}

/// The days are numbered from the first of January 1970; a year has 366 of them where four divides it, but not where a
/// hundred does and four hundred does not, and 365 otherwise.
pub proof fn years_have_their_length(year: int)
    ensures
        day_number(1970, 1, 1) == 0,
        day_number(year + 1, 1, 1) - day_number(year, 1, 1) == (if year % 4 == 0 && (year % 100 != 0 || year % 400 == 0) {
            366int
        } else {
            365
        }),
        day_number(year, 3, 1) - day_number(year, 2, 1) == day_number(year + 1, 1, 1) - day_number(year, 1, 1) - 337,
        is_date(year, 12, 31) && day_number(year, 12, 31) + 1 == day_number(year + 1, 1, 1),
{
    month_starts(year);
    month_starts(year + 1);
    month_starts(1970);
}

} // verus!
