//! Timestamps: those that are written, and those that are read.

use vstd::prelude::*;

use crate::calendar;
use crate::text;

verus! {

/// `date` is the date of day number `days`.
pub open spec fn dated(date: (int, int, int), days: int) -> bool {
    calendar::is_date(date.0, date.1, date.2) && calendar::day_number(date.0, date.1, date.2)
        == days
}

/// The date of a day number.
pub open spec fn date_of(days: int) -> (int, int, int) {
    choose|date: (int, int, int)| #[trigger] dated(date, days)
}

/// `n` with at least `width` digits.
pub open spec fn padded(n: int, width: nat) -> Seq<char> {
    text::zero_padded(text::decimal(n as nat), width)
}

/// The RFC 3339 timestamp in UTC of a moment after the Unix epoch.
pub open spec fn timestamp_text(secs: u64, millis: u32) -> Seq<char> {
    let date = date_of((secs / 86_400) as int);
    let rem = secs % 86_400;
    padded(date.0, 4) + seq!['-'] + padded(date.1, 2) + seq!['-'] + padded(date.2, 2) + seq!['T']
        + padded((rem / 3600) as int, 2) + seq![':'] + padded(((rem % 3600) / 60) as int, 2)
        + seq![':'] + padded((rem % 60) as int, 2) + seq!['.'] + padded(millis as int, 3)
        + seq!['Z']
}

/// The timestamp of the moment `secs` seconds and `millis` milliseconds after the Unix epoch.
pub fn timestamp(secs: u64, millis: u32) -> (r: String)
    ensures
        r@ == timestamp_text(secs, millis),
{
    let days: i64 = (secs / 86_400) as i64;
    let (year, month, day) = calendar::civil_from_days(days);
    let rem: u64 = secs % 86_400;
    proof {
        let date = (year as int, month as int, day as int);
        assert(dated(date, days as int));
        let named = date_of(days as int);
        calendar::lemma_dates_differ(date.0, date.1, date.2, named.0, named.1, named.2);
        calendar::lemma_years_in_order(year as int, month as int, day as int, 1970);
    }
    let mut r = String::new();
    text::append_padded(&mut r, year as u64, 4);
    r.push('-');
    text::append_padded(&mut r, month as u64, 2);
    r.push('-');
    text::append_padded(&mut r, day as u64, 2);
    r.push('T');
    text::append_padded(&mut r, rem / 3600, 2);
    r.push(':');
    text::append_padded(&mut r, (rem % 3600) / 60, 2);
    r.push(':');
    text::append_padded(&mut r, rem % 60, 2);
    r.push('.');
    text::append_padded(&mut r, millis as u64, 3);
    r.push('Z');
    assert(r@ =~= timestamp_text(secs, millis));
    r
}

/// Every day number is that of a date.
proof fn lemma_dated(days: int)
    requires
        0 <= days,
    ensures
        dated(date_of(days), days),
{
    let date = calendar::lemma_some_date(days);
    assert(dated(date, days));
}

proof fn lemma_four_digit_year(days: int)
    requires
        0 <= days < 2_932_897,
    ensures
        1970 <= date_of(days).0 <= 9999,
        1 <= date_of(days).1 <= 12,
        1 <= date_of(days).2 <= 31,
        calendar::day_number(date_of(days).0, date_of(days).1, date_of(days).2) == days,
{
    lemma_dated(days);
    let date = date_of(days);
    calendar::lemma_years_in_order(date.0, date.1, date.2, 1970);
    calendar::lemma_years_in_order(date.0, date.1, date.2, 10_000);
    assert(calendar::day_number(1970, 1, 1) == 0);
    assert(calendar::day_number(10_000, 1, 1) == 2_932_897);
}

/// A fraction counts in thousandths: one digit stands for hundreds, two for tens, and what
/// follows the third is cut off. A point without a digit is no fraction, and without a point there
/// are none.
pub proof fn lemma_fractions_in_full(s: Seq<char>)
    ensures
        s.len() == 0 || s[0] != '.' ==> fraction_ms(s) == Some(0int),
        s.len() > 0 && s[0] == '.' ==> {
            let one = s.len() > 1 && '0' <= s[1] <= '9';
            let two = one && s.len() > 2 && '0' <= s[2] <= '9';
            let three = two && s.len() > 3 && '0' <= s[3] <= '9';
            &&& !one ==> fraction_ms(s) is None
            &&& one && !two ==> fraction_ms(s) == Some(100 * (s[1] as int - 48))
            &&& two && !three ==> fraction_ms(s) == Some(
                100 * (s[1] as int - 48) + 10 * (s[2] as int - 48),
            )
            &&& three ==> fraction_ms(s) == Some(
                100 * (s[1] as int - 48) + 10 * (s[2] as int - 48) + (s[3] as int - 48),
            )
        },
{
    if s.len() > 0 && s[0] == '.' {
        let digits = s.skip(1);
        let n = leading_digits(digits);
        reveal_with_fuel(leading_digits, 4);
        reveal_with_fuel(text::digits_value, 4);
        if n >= 1 {
            assert(digits[0] == s[1]);
            assert(digits.take(1).drop_last() =~= seq![]);
        }
        if n >= 2 {
            assert(digits.drop_first()[0] == s[2]);
            assert(digits.take(2).drop_last() =~= digits.take(1));
        }
        if n >= 3 {
            assert(digits.drop_first().drop_first()[0] == s[3]);
            assert(digits.take(3).drop_last() =~= digits.take(2));
        }
        assert(s.len() > 1 ==> digits[0] == s[1]);
        assert(s.len() > 2 ==> digits.drop_first()[0] == s[2]);
        assert(s.len() > 3 ==> digits.drop_first().drop_first()[0] == s[3]);
    }
}

/// A moment is read only where its marks are at their places, and a small `t` is as good as a
/// capital.
pub proof fn lemma_marks_in_full(s: Seq<char>)
    ensures
        iso_ms(s) is Some ==> s.len() >= 19 && s[4] == '-' && s[7] == '-' && (s[10] == 'T' || s[10]
            == 't') && s[13] == ':' && s[16] == ':',
        s.len() >= 19 && s[10] == 'T' ==> iso_ms(s.update(10, 't')) == iso_ms(s),
{
    if s.len() >= 19 && s[10] == 'T' {
        let t = s.update(10, 't');
        assert(t.subrange(0, 4) =~= s.subrange(0, 4));
        assert(t.subrange(5, 7) =~= s.subrange(5, 7));
        assert(t.subrange(8, 10) =~= s.subrange(8, 10));
        assert(t.subrange(11, 13) =~= s.subrange(11, 13));
        assert(t.subrange(14, 16) =~= s.subrange(14, 16));
        assert(t.subrange(17, 19) =~= s.subrange(17, 19));
        assert(t.skip(19) =~= s.skip(19));
    }
}

/// A timestamp is read back to the millisecond, up to the end of the year 9999.
pub proof fn lemma_timestamp_reads_back(secs: u64, millis: u32)
    requires
        secs < 253_402_300_800,
        millis < 1000,
    ensures
        iso_ms(timestamp_text(secs, millis)) == Some(secs * 1000 + millis),
{
    let days = (secs / 86_400) as int;
    let rem = secs % 86_400;
    lemma_four_digit_year(days);
    let date = date_of(days);
    let h = (rem / 3600) as int;
    let mi = ((rem % 3600) / 60) as int;
    let sec = (rem % 60) as int;
    lemma_time_of_day(secs, millis);
    lemma_fields_read_back(date.0, date.1, date.2, h, mi, sec, millis as int);
}

proof fn lemma_fields_read_back(
    year: int,
    month: int,
    day: int,
    hour: int,
    minute: int,
    second: int,
    millis: int,
)
    requires
        0 <= year <= 9999,
        0 <= month < 100,
        0 <= day < 100,
        0 <= hour < 100,
        0 <= minute < 100,
        0 <= second < 100,
        0 <= millis < 1000,
    ensures
        iso_ms(
            padded(year, 4) + seq!['-'] + padded(month, 2) + seq!['-'] + padded(day, 2) + seq!['T']
                + padded(hour, 2) + seq![':'] + padded(minute, 2) + seq![':'] + padded(second, 2)
                + seq!['.'] + padded(millis, 3) + seq!['Z'],
        ) == Some(
            wrapped(
                calendar::day_number(year, month, day) * 86_400_000 + hour * 3_600_000 + minute
                    * 60_000 + second * 1000 + millis,
            ),
        ),
{
    text::lemma_padded(year as nat, 4);
    text::lemma_padded(month as nat, 2);
    text::lemma_padded(day as nat, 2);
    text::lemma_padded(hour as nat, 2);
    text::lemma_padded(minute as nat, 2);
    text::lemma_padded(second as nat, 2);
    text::lemma_padded(millis as nat, 3);
    lemma_layout(
        padded(year, 4),
        padded(month, 2),
        padded(day, 2),
        padded(hour, 2),
        padded(minute, 2),
        padded(second, 2),
        padded(millis, 3),
    );
    assert(month % 0x1_0000_0000 == month);
    assert(day % 0x1_0000_0000 == day);
}

proof fn lemma_time_of_day(secs: u64, millis: u32)
    requires
        secs < 253_402_300_800,
        millis < 1000,
    ensures
        ({
            let rem = secs % 86_400;
            wrapped(
                (secs / 86_400) * 86_400_000 + (rem / 3600) * 3_600_000 + ((rem % 3600) / 60)
                    * 60_000 + (rem % 60) * 1000 + millis,
            ) == secs * 1000 + millis
        }),
{
    let rem = secs % 86_400;
    assert(secs == (secs / 86_400) * 86_400 + rem);
    assert(rem == (rem / 3600) * 3600 + rem % 3600);
    assert(rem % 3600 == ((rem % 3600) / 60) * 60 + (rem % 3600) % 60);
    assert((rem % 3600) % 60 == rem % 60);
}

/// Where the fields of a timestamp stand.
proof fn lemma_layout(
    year: Seq<char>,
    month: Seq<char>,
    day: Seq<char>,
    hour: Seq<char>,
    minute: Seq<char>,
    second: Seq<char>,
    millis: Seq<char>,
)
    requires
        year.len() == 4,
        month.len() == 2,
        day.len() == 2,
        hour.len() == 2,
        minute.len() == 2,
        second.len() == 2,
        millis.len() == 3,
        text::all_digits(millis),
    ensures
        ({
            let s = year + seq!['-'] + month + seq!['-'] + day + seq!['T'] + hour + seq![':']
                + minute + seq![':'] + second + seq!['.'] + millis + seq!['Z'];
            &&& s.len() == 24
            &&& s[4] == '-' && s[7] == '-' && s[10] == 'T' && s[13] == ':' && s[16] == ':'
            &&& s.subrange(0, 4) == year
            &&& s.subrange(5, 7) == month
            &&& s.subrange(8, 10) == day
            &&& s.subrange(11, 13) == hour
            &&& s.subrange(14, 16) == minute
            &&& s.subrange(17, 19) == second
            &&& fraction_ms(s.skip(19)) == Some(text::digits_value(millis) as int)
        }),
{
    let s = year + seq!['-'] + month + seq!['-'] + day + seq!['T'] + hour + seq![':'] + minute
        + seq![':'] + second + seq!['.'] + millis + seq!['Z'];
    assert(s.subrange(0, 4) =~= year);
    assert(s.subrange(5, 7) =~= month);
    assert(s.subrange(8, 10) =~= day);
    assert(s.subrange(11, 13) =~= hour);
    assert(s.subrange(14, 16) =~= minute);
    assert(s.subrange(17, 19) =~= second);
    let digits = s.skip(19).skip(1);
    assert(digits =~= millis + seq!['Z']);
    assert forall|k: int| 0 <= k < 3 implies text::is_digit(#[trigger] digits[k]) by {
        assert(text::is_digit(millis[k]));
    }
    assert(!text::is_digit(digits[3]));
    lemma_leading_digits(digits, 3);
    assert(digits.take(3) =~= millis);
}

/// The number of digits that `s` starts with.
pub open spec fn leading_digits(s: Seq<char>) -> nat
    decreases s.len(),
{
    if s.len() == 0 || !text::is_digit(s[0]) {
        0
    } else {
        1 + leading_digits(s.drop_first())
    }
}

/// The milliseconds that the fraction at the start of `s` writes, digits past the third left
/// out. No fraction is 0; a point without digits is no fraction.
pub open spec fn fraction_ms(s: Seq<char>) -> Option<int> {
    if s.len() == 0 || s[0] != '.' {
        Some(0)
    } else {
        let digits = s.skip(1);
        let n = leading_digits(digits);
        if n == 0 {
            None
        } else if n == 1 {
            Some(100 * text::digits_value(digits.take(1)) as int)
        } else if n == 2 {
            Some(10 * text::digits_value(digits.take(2)) as int)
        } else {
            Some(text::digits_value(digits.take(3)) as int)
        }
    }
}

/// `n` as 64 bits with sign.
pub open spec fn wrapped(n: int) -> int {
    (n + 0x8000_0000_0000_0000) % 0x1_0000_0000_0000_0000 - 0x8000_0000_0000_0000
}

/// The milliseconds since the Unix epoch that an ISO 8601 timestamp in UTC writes. The fields
/// are signed numbers at fixed places; month and day are taken modulo 2^32, the result modulo
/// 2^64.
pub open spec fn iso_ms(s: Seq<char>) -> Option<int> {
    if s.len() < 19 || s[4] != '-' || s[7] != '-' || (s[10] != 'T' && s[10] != 't') || s[13] != ':'
        || s[16] != ':' {
        None
    } else {
        match (
            (
                text::i64_of(s.subrange(0, 4)),
                text::i64_of(s.subrange(5, 7)),
                text::i64_of(s.subrange(8, 10)),
            ),
            (
                text::i64_of(s.subrange(11, 13)),
                text::i64_of(s.subrange(14, 16)),
                text::i64_of(s.subrange(17, 19)),
            ),
            fraction_ms(s.skip(19)),
        ) {
            (
                (Some(year), Some(month), Some(day)),
                (Some(hour), Some(minute), Some(second)),
                Some(millis),
            ) => Some(
                wrapped(
                    calendar::day_number(
                        year as int,
                        month as int % 0x1_0000_0000,
                        day as int % 0x1_0000_0000,
                    ) * 86_400_000 + hour * 3_600_000 + minute * 60_000 + second * 1000 + millis,
                ),
            ),
            _ => None,
        }
    }
}

/// Digits alone stand at the places `from..to`.
pub open spec fn digits_at(s: Seq<char>, from: int, to: int) -> bool {
    text::all_digits(s.subrange(from, to))
}

/// The number that the digits at the places `from..to` write.
pub open spec fn number_at(s: Seq<char>, from: int, to: int) -> int {
    text::digits_value(s.subrange(from, to)) as int
}

/// A text of the shape `YYYY-MM-DDThh:mm:ss.mmmZ` with a date of the calendar and a time of day.
pub open spec fn is_stamp(s: Seq<char>) -> bool {
    &&& s.len() == 24
    &&& s[4] == '-' && s[7] == '-' && s[10] == 'T' && s[13] == ':' && s[16] == ':' && s[19] == '.'
        && s[23] == 'Z'
    &&& digits_at(s, 0, 4) && digits_at(s, 5, 7) && digits_at(s, 8, 10)
    &&& digits_at(s, 11, 13) && digits_at(s, 14, 16) && digits_at(s, 17, 19)
    &&& digits_at(s, 20, 23)
    &&& calendar::is_date(number_at(s, 0, 4), number_at(s, 5, 7), number_at(s, 8, 10))
    &&& number_at(s, 11, 13) < 24 && number_at(s, 14, 16) < 60 && number_at(s, 17, 19) < 60
}

/// The milliseconds of such a text since the Unix epoch.
pub open spec fn stamp_ms(s: Seq<char>) -> int {
    calendar::day_number(number_at(s, 0, 4), number_at(s, 5, 7), number_at(s, 8, 10)) * 86_400_000
        + number_at(s, 11, 13) * 3_600_000 + number_at(s, 14, 16) * 60_000 + number_at(s, 17, 19)
        * 1000 + number_at(s, 20, 23)
}

proof fn lemma_digits_read(s: Seq<char>)
    requires
        text::all_digits(s),
        s.len() <= 4,
    ensures
        text::i64_of(s) == Some(text::digits_value(s) as i64),
        text::digits_value(s) <= 9999,
        s.len() <= 3 ==> text::digits_value(s) <= 999,
        s.len() <= 2 ==> text::digits_value(s) <= 99,
{
    text::lemma_digits_value_short(s);
    assert(text::is_digit(s[0]));
}

proof fn lemma_stamp_ms(s: Seq<char>)
    requires
        is_stamp(s),
    ensures
        iso_ms(s) == Some(stamp_ms(s)),
        0 <= number_at(s, 20, 23) < 1000,
{
    lemma_digits_read(s.subrange(0, 4));
    lemma_digits_read(s.subrange(5, 7));
    lemma_digits_read(s.subrange(8, 10));
    lemma_digits_read(s.subrange(11, 13));
    lemma_digits_read(s.subrange(14, 16));
    lemma_digits_read(s.subrange(17, 19));
    let millis = s.subrange(20, 23);
    lemma_digits_read(millis);
    let rest = s.skip(19);
    let digits = rest.skip(1);
    assert forall|k: int| 0 <= k < 3 implies text::is_digit(#[trigger] digits[k]) by {
        assert(text::is_digit(millis[k]));
    }
    assert(digits[3] == 'Z');
    lemma_leading_digits(digits, 3);
    assert(digits.take(3) =~= millis);
    assert(rest[0] == '.');
    let month = number_at(s, 5, 7);
    let day = number_at(s, 8, 10);
    assert(month % 0x1_0000_0000 == month);
    assert(day % 0x1_0000_0000 == day);
    calendar::lemma_day_number_range(number_at(s, 0, 4), month, day);
    lemma_no_wrap(stamp_ms(s));
}

proof fn lemma_no_wrap(n: int)
    requires
        -0x8000_0000_0000_0000 <= n < 0x8000_0000_0000_0000,
    ensures
        wrapped(n) == n,
{
}

proof fn lemma_stamp_ascii(s: Seq<char>)
    requires
        is_stamp(s),
    ensures
        vstd::utf8::is_ascii_chars(s),
{
    lemma_part_ascii(s, 0, 4);
    lemma_part_ascii(s, 5, 7);
    lemma_part_ascii(s, 8, 10);
    lemma_part_ascii(s, 11, 13);
    lemma_part_ascii(s, 14, 16);
    lemma_part_ascii(s, 17, 19);
    lemma_part_ascii(s, 20, 23);
    assert forall|i: int| 0 <= i < s.len() implies '\0' <= #[trigger] s[i] <= '\u{7f}' by {
        assert(i == 4 || i == 7 || i == 10 || i == 13 || i == 16 || i == 19 || i == 23
            || text::is_digit(s[i]));
    }
}

proof fn lemma_part_ascii(s: Seq<char>, from: int, to: int)
    requires
        0 <= from <= to <= s.len(),
        digits_at(s, from, to),
    ensures
        forall|i: int| from <= i < to ==> text::is_digit(#[trigger] s[i]),
{
    let part = s.subrange(from, to);
    assert forall|i: int| from <= i < to implies text::is_digit(#[trigger] s[i]) by {
        assert(text::is_digit(part[i - from]));
    }
}

/// How a part of two texts compares that agree up to the place `k`, where the first is lower.
proof fn lemma_part(a: Seq<char>, b: Seq<char>, from: int, to: int, k: int)
    requires
        0 <= from <= to <= a.len(),
        a.len() == b.len(),
        0 <= k < a.len(),
        forall|i: int| 0 <= i < k ==> a[i] == b[i],
        a[k] < b[k],
        digits_at(a, from, to),
        digits_at(b, from, to),
    ensures
        to <= k ==> number_at(a, from, to) == number_at(b, from, to),
        from <= k < to ==> number_at(a, from, to) < number_at(b, from, to),
{
    let x = a.subrange(from, to);
    let y = b.subrange(from, to);
    if to <= k {
        assert(x =~= y);
    } else if from <= k {
        assert forall|i: int| 0 <= i < k - from implies x[i] == y[i] by {
            assert(a[from + i] == b[from + i]);
        }
        text::lemma_digits_before(x, y, k - from);
    }
}

proof fn lemma_stamp_before(a: Seq<char>, b: Seq<char>, k: int)
    requires
        is_stamp(a),
        is_stamp(b),
        0 <= k < 24,
        forall|i: int| 0 <= i < k ==> a[i] == b[i],
        a[k] < b[k],
    ensures
        stamp_ms(a) < stamp_ms(b),
        text::text_le(a, b),
        !text::text_le(b, a),
{
    lemma_stamp_ascii(a);
    lemma_stamp_ascii(b);
    text::lemma_text_before(a, b, k);
    lemma_part(a, b, 0, 4, k);
    lemma_part(a, b, 5, 7, k);
    lemma_part(a, b, 8, 10, k);
    lemma_part(a, b, 11, 13, k);
    lemma_part(a, b, 14, 16, k);
    lemma_part(a, b, 17, 19, k);
    lemma_part(a, b, 20, 23, k);
    lemma_stamp_ms(a);
    lemma_stamp_ms(b);
    if k < 10 {
        calendar::lemma_dates_in_order(
            number_at(a, 0, 4),
            number_at(a, 5, 7),
            number_at(a, 8, 10),
            number_at(b, 0, 4),
            number_at(b, 5, 7),
            number_at(b, 8, 10),
        );
    }
}

/// Timestamps of the shape `YYYY-MM-DDThh:mm:ss.mmmZ` are readable, and order as texts the way
/// they order in time.
pub proof fn lemma_stamps_in_order(a: Seq<char>, b: Seq<char>)
    requires
        is_stamp(a),
        is_stamp(b),
    ensures
        iso_ms(a) == Some(stamp_ms(a)),
        iso_ms(b) == Some(stamp_ms(b)),
        text::text_le(a, b) <==> stamp_ms(a) <= stamp_ms(b),
        a != b && text::text_le(a, b) <==> stamp_ms(a) < stamp_ms(b),
{
    lemma_stamp_ms(a);
    lemma_stamp_ms(b);
    if a == b {
        text::lemma_text_le_same(a);
    } else {
        let k = lemma_first_difference(a, b, 0);
        if a[k] < b[k] {
            lemma_stamp_before(a, b, k);
        } else {
            lemma_stamp_before(b, a, k);
        }
    }
}

/// A timestamp that is written has this shape, up to the end of the year 9999.
pub proof fn lemma_timestamp_is_stamp(secs: u64, millis: u32)
    requires
        secs < 253_402_300_800,
        millis < 1000,
    ensures
        is_stamp(timestamp_text(secs, millis)),
{
    let days = (secs / 86_400) as int;
    let rem = secs % 86_400;
    lemma_four_digit_year(days);
    lemma_dated(days);
    let date = date_of(days);
    let h = (rem / 3600) as int;
    let mi = ((rem % 3600) / 60) as int;
    let sec = (rem % 60) as int;
    text::lemma_padded(date.0 as nat, 4);
    text::lemma_padded(date.1 as nat, 2);
    text::lemma_padded(date.2 as nat, 2);
    text::lemma_padded(h as nat, 2);
    text::lemma_padded(mi as nat, 2);
    text::lemma_padded(sec as nat, 2);
    text::lemma_padded(millis as nat, 3);
    lemma_layout(
        padded(date.0, 4),
        padded(date.1, 2),
        padded(date.2, 2),
        padded(h, 2),
        padded(mi, 2),
        padded(sec, 2),
        padded(millis as int, 3),
    );
    let s = timestamp_text(secs, millis);
    assert(s.subrange(20, 23) =~= padded(millis as int, 3));
}

/// Written timestamps order as texts the way their moments do, up to the end of the year 9999.
pub proof fn lemma_timestamps_in_order(secs1: u64, millis1: u32, secs2: u64, millis2: u32)
    requires
        secs1 < 253_402_300_800,
        millis1 < 1000,
        secs2 < 253_402_300_800,
        millis2 < 1000,
    ensures
        text::text_le(timestamp_text(secs1, millis1), timestamp_text(secs2, millis2))
            <==> secs1 * 1000 + millis1 <= secs2 * 1000 + millis2,
{
    lemma_timestamp_is_stamp(secs1, millis1);
    lemma_timestamp_is_stamp(secs2, millis2);
    lemma_timestamp_reads_back(secs1, millis1);
    lemma_timestamp_reads_back(secs2, millis2);
    lemma_stamps_in_order(timestamp_text(secs1, millis1), timestamp_text(secs2, millis2));
}

proof fn lemma_first_difference(a: Seq<char>, b: Seq<char>, from: int) -> (k: int)
    requires
        a.len() == b.len(),
        a != b,
        0 <= from <= a.len(),
        forall|i: int| 0 <= i < from ==> a[i] == b[i],
    ensures
        from <= k < a.len(),
        a[k] != b[k],
        forall|i: int| 0 <= i < k ==> a[i] == b[i],
    decreases a.len() - from,
{
    if from == a.len() {
        assert(a =~= b);
        from
    } else if a[from] != b[from] {
        from
    } else {
        lemma_first_difference(a, b, from + 1)
    }
}

/// The number at the places `from..to`.
fn field(chars: &Vec<char>, from: usize, to: usize) -> (r: Option<i64>)
    requires
        from <= to <= chars@.len(),
    ensures
        r == text::i64_of(chars@.subrange(from as int, to as int)),
{
    text::parse_i64(text::text_of(chars, from, to).as_str())
}

fn low_32_bits(n: i64) -> (r: u32)
    requires
        -9 <= n <= 99,
    ensures
        r == n as int % 0x1_0000_0000,
{
    if n < 0 {
        (n + 0x1_0000_0000) as u32
    } else {
        n as u32
    }
}

proof fn lemma_leading_digits(s: Seq<char>, n: int)
    requires
        0 <= n <= s.len(),
        forall|k: int| 0 <= k < n ==> text::is_digit(#[trigger] s[k]),
        n == s.len() || !text::is_digit(s[n]),
    ensures
        leading_digits(s) == n,
    decreases n,
{
    if n > 0 {
        assert(text::is_digit(s[0]));
        let rest = s.drop_first();
        assert forall|k: int| 0 <= k < n - 1 implies text::is_digit(#[trigger] rest[k]) by {
            assert(text::is_digit(s[k + 1]));
        }
        lemma_leading_digits(rest, n - 1);
    }
}

/// Reads the fraction from index 19 on.
fn read_fraction(chars: &Vec<char>) -> (r: Option<i64>)
    requires
        chars@.len() >= 19,
    ensures
        match r {
            Some(ms) => fraction_ms(chars@.skip(19)) == Some(ms as int) && 0 <= ms <= 999,
            None => fraction_ms(chars@.skip(19)) is None,
        },
{
    let ghost rest = chars@.skip(19);
    if chars.len() == 19 || chars[19] != '.' {
        return Some(0);
    }
    let ghost digits = rest.skip(1);
    let mut n: usize = 0;
    while n < chars.len() - 20 && '0' <= chars[20 + n] && chars[20 + n] <= '9'
        invariant
            chars@.len() >= 20,
            n <= chars@.len() - 20,
            digits == chars@.skip(19).skip(1),
            forall|k: int| 0 <= k < n ==> text::is_digit(#[trigger] digits[k]),
        decreases chars@.len() - n,
    {
        assert(digits[n as int] == chars@[20 + n]);
        n = n + 1;
    }
    proof {
        if n < chars@.len() - 20 {
            assert(digits[n as int] == chars@[20 + n]);
        }
        lemma_leading_digits(digits, n as int);
    }
    if n == 0 {
        return None;
    }
    let len: usize = if n < 3 {
        n
    } else {
        3
    };
    let ghost lead = digits.take(len as int);
    let value = field(chars, 20, 20 + len);
    proof {
        assert(chars@.subrange(20, 20 + len) =~= lead);
        assert forall|k: int| 0 <= k < lead.len() implies text::is_digit(#[trigger] lead[k]) by {
            assert(text::is_digit(digits[k]));
        }
        assert(text::is_digit(lead[0]));
        text::lemma_digits_value_short(lead);
    }
    match value {
        Some(v) => {
            if len == 1 {
                Some(v * 100)
            } else if len == 2 {
                Some(v * 10)
            } else {
                Some(v)
            }
        },
        None => None,
    }
}

/// The milliseconds up to a moment of a day.
fn moment_ms(days: i64, hour: i64, minute: i64, second: i64, millis: i64) -> (r: i64)
    requires
        -1_200_000 <= days <= 150_000_000_000,
        -9 <= hour <= 99,
        -9 <= minute <= 99,
        -9 <= second <= 99,
        0 <= millis <= 999,
    ensures
        r == wrapped(
            days * 86_400_000 + hour * 3_600_000 + minute * 60_000 + second * 1000 + millis,
        ),
{
    let total: i128 = days as i128 * 86_400_000 + hour as i128 * 3_600_000 + minute as i128
        * 60_000 + second as i128 * 1000 + millis as i128;
    if total > 0x7fff_ffff_ffff_ffff {
        (total - 0x1_0000_0000_0000_0000) as i64
    } else {
        total as i64
    }
}

/// Reads an ISO 8601 timestamp in UTC, such as `2026-09-10T18:35:06Z`, as milliseconds since
/// the Unix epoch. Fractions of a second are cut to milliseconds.
pub fn parse_iso_ms(raw: &str) -> (r: Option<i64>)
    ensures
        iso_ms(raw@) == (match r {
            Some(ms) => Some(ms as int),
            None => None,
        }),
{
    let chars = text::chars_of(raw);
    if chars.len() < 19 || chars[4] != '-' || chars[7] != '-' || (chars[10] != 'T' && chars[10]
        != 't') || chars[13] != ':' || chars[16] != ':' {
        return None;
    }
    proof {
        text::lemma_i64_of_short(raw@.subrange(0, 4));
        text::lemma_i64_of_short(raw@.subrange(5, 7));
        text::lemma_i64_of_short(raw@.subrange(8, 10));
        text::lemma_i64_of_short(raw@.subrange(11, 13));
        text::lemma_i64_of_short(raw@.subrange(14, 16));
        text::lemma_i64_of_short(raw@.subrange(17, 19));
    }
    match (
        (field(&chars, 0, 4), field(&chars, 5, 7), field(&chars, 8, 10)),
        (field(&chars, 11, 13), field(&chars, 14, 16), field(&chars, 17, 19)),
        read_fraction(&chars),
    ) {
        (
            (Some(year), Some(month), Some(day)),
            (Some(hour), Some(minute), Some(second)),
            Some(millis),
        ) => {
            let m: u32 = low_32_bits(month);
            let d: u32 = low_32_bits(day);
            let days: i64 = calendar::days_from_civil(year, m, d);
            proof {
                calendar::lemma_day_number_range(year as int, m as int, d as int);
            }
            Some(moment_ms(days, hour, minute, second, millis))
        },
        _ => None,
    }
}

} // verus!
