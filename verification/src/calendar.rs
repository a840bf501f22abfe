//! Points in time as RFC 3339 writes them.

use crate::text::{all_digits, behind_first, chars_between, chars_of, digits_value, find_char};
use crate::text::{first_of, is_digit, lemma_digits_monotone, lemma_first_of, split_by};
use crate::text::{split_chars, strip_end, texts, trim_chars, trimmed, without_end};
use vstd::prelude::*;

verus! {

/// The digits of a number text after an optional sign.
pub open spec fn signed_body(s: Seq<char>) -> Seq<char> {
    if s.len() > 0 && (s[0] == '+' || s[0] == '-') {
        s.skip(1)
    } else {
        s
    }
}

/// The number that a text writes, if it writes one of 64 bits with sign.
pub open spec fn parsed_signed(s: Seq<char>) -> Option<int> {
    let body = signed_body(s);
    let value = if s.len() > 0 && s[0] == '-' {
        -(digits_value(body) as int)
    } else {
        digits_value(body) as int
    };
    if body.len() > 0 && all_digits(body) && i64::MIN <= value <= i64::MAX {
        Some(value)
    } else {
        None
    }
}

/// The number that the characters write.
pub fn parse_signed(chars: &[char]) -> (n: Option<i64>)
    ensures
        match n {
            Some(v) => parsed_signed(chars@) == Some(v as int),
            None => parsed_signed(chars@) is None,
        },
{
    let negative = chars.len() > 0 && chars[0] == '-';
    let start: usize = if chars.len() > 0 && (chars[0] == '+' || chars[0] == '-') {
        1
    } else {
        0
    };
    let ghost body = signed_body(chars@);
    assert(body =~= chars@.skip(start as int));
    if start == chars.len() {
        return None;
    }
    let limit: i128 = if negative {
        0x8000_0000_0000_0000
    } else {
        0x7FFF_FFFF_FFFF_FFFF
    };
    let mut value: i128 = 0;
    let mut i: usize = start;
    while i < chars.len()
        invariant
            start <= i <= chars@.len(),
            body == chars@.skip(start as int),
            body == signed_body(chars@),
            body.len() > 0,
            negative == (chars@.len() > 0 && chars@[0] == '-'),
            limit == (if negative {
                0x8000_0000_0000_0000int
            } else {
                0x7FFF_FFFF_FFFF_FFFFint
            }),
            value == digits_value(body.take(i - start)),
            0 <= value <= limit,
            forall|k: int| 0 <= k < i - start ==> is_digit(#[trigger] body[k]),
        decreases chars@.len() - i,
    {
        let c = chars[i];
        assert(body[i - start] == c);
        if c < '0' || c > '9' {
            assert(!is_digit(body[i - start]));
            return None;
        }
        let digit: u8 = c as u8;
        assert(body.take(i + 1 - start).drop_last() =~= body.take(i - start));
        assert(body.take(i + 1 - start).last() == c);
        value = value * 10 + (digit - 48) as i128;
        if value > limit {
            proof {
                if all_digits(body) {
                    lemma_digits_monotone(body, i + 1 - start);
                }
            }
            return None;
        }
        i = i + 1;
    }
    assert(body.take(i - start) =~= body);
    if negative {
        Some((-value) as i64)
    } else {
        Some(value as i64)
    }
}

/// A year with a day in February more.
pub open spec fn is_leap(year: int) -> bool {
    year % 4 == 0 && (year % 100 != 0 || year % 400 == 0)
}

/// The days of the year before the first of a month.
pub open spec fn days_before_month(year: int, month: int) -> int {
    let leap: int = if is_leap(year) && month > 2 {
        1
    } else {
        0
    };
    leap + if month == 1 {
        0int
    } else if month == 2 {
        31
    } else if month == 3 {
        59
    } else if month == 4 {
        90
    } else if month == 5 {
        120
    } else if month == 6 {
        151
    } else if month == 7 {
        181
    } else if month == 8 {
        212
    } else if month == 9 {
        243
    } else if month == 10 {
        273
    } else if month == 11 {
        304
    } else {
        334
    }
}

/// The days from the first of January of the year one to that of `year`, in the Gregorian
/// calendar.
pub open spec fn days_before_year(year: int) -> int {
    365 * (year - 1) + (year - 1) / 4 - (year - 1) / 100 + (year - 1) / 400
}

/// The days from the first of January 1970 to a date in the Gregorian calendar; a day
/// beyond the end of the month counts on.
pub open spec fn civil_days(year: int, month: int, day: int) -> int {
    days_before_year(year) + days_before_month(year, month) + day - 1 - 719_162
}

pub open spec fn valid_date(month: int, day: int) -> bool {
    1 <= month <= 12 && 1 <= day <= 31
}

proof fn lemma_eras(year: int)
    ensures
        ({
            let era = year / 400;
            let of_era = year - era * 400;
            era * 146_097 + of_era * 365 + of_era / 4 - of_era / 100 == 365 * year + year / 4 - year
                / 100 + year / 400
        }),
{
    let era = year / 400;
    let of_era = year - era * 400;
    assert(year / 4 == 100 * era + of_era / 4);
    assert(year / 100 == 4 * era + of_era / 100);
}

proof fn lemma_leap_day(year: int)
    ensures
        (365 * year + year / 4 - year / 100 + year / 400) - days_before_year(year) == 365 + if is_leap(
            year,
        ) {
            1int
        } else {
            0int
        },
{
    assert(year / 4 - (year - 1) / 4 == if year % 4 == 0 {
        1int
    } else {
        0int
    });
    assert(year / 100 - (year - 1) / 100 == if year % 100 == 0 {
        1int
    } else {
        0int
    });
    assert(year / 400 - (year - 1) / 400 == if year % 400 == 0 {
        1int
    } else {
        0int
    });
    assert(year % 100 == 0 ==> year % 4 == 0);
    assert(year % 400 == 0 ==> year % 100 == 0);
}

/// The days from the first of January 1970 to a date.
pub fn days_from_civil(year: i64, month: i64, day: i64) -> (days: Option<i128>)
    ensures
        match days {
            Some(n) => valid_date(month as int, day as int) && n == civil_days(
                year as int,
                month as int,
                day as int,
            ),
            None => !valid_date(month as int, day as int),
        },
{
    if month < 1 || month > 12 || day < 1 || day > 31 {
        return None;
    }
    let adjusted: i128 = year as i128 - if month <= 2 {
        1
    } else {
        0
    };
    let era: i128 = (if adjusted >= 0 {
        adjusted
    } else {
        adjusted - 399
    }) / 400;
    assert(era == adjusted as int / 400);
    let year_of_era: i128 = adjusted - era * 400;
    let month_adjusted: i128 = if month > 2 {
        month as i128 - 3
    } else {
        month as i128 + 9
    };
    let day_of_year: i128 = (153 * month_adjusted + 2) / 5 + day as i128 - 1;
    let day_of_era: i128 = year_of_era * 365 + year_of_era / 4 - year_of_era / 100 + day_of_year;
    proof {
        lemma_eras(adjusted as int);
        lemma_leap_day(year as int);
        lemma_leap_day(adjusted as int);
    }
    Some(era * 146_097 + day_of_era - 719_468)
}

/// The time of day without the offset from universal time, which is not counted.
pub open spec fn without_offset(time: Seq<char>) -> Seq<char> {
    let plain = without_end(time, 'Z');
    let plus = first_of(plain, '+');
    let minus = first_of(plain, '-');
    plain.take(
        if plus <= minus {
            plus
        } else {
            minus
        },
    )
}

/// The part of a text before the first `c`, all of it where there is none.
pub open spec fn ahead_of(s: Seq<char>, c: char) -> Seq<char> {
    s.take(first_of(s, c))
}

/// The days from 1970 to the date that a text writes.
pub open spec fn date_days(date: Seq<char>) -> Option<int> {
    let parts = split_by(date, '-');
    if parts.len() < 3 {
        None
    } else {
        match (parsed_signed(parts[0]), parsed_signed(parts[1]), parsed_signed(parts[2])) {
            (Some(year), Some(month), Some(day)) => if valid_date(month, day) {
                Some(civil_days(year, month, day))
            } else {
                None
            },
            _ => None,
        }
    }
}

/// The seconds from midnight to the time that a text writes, without fractions.
pub open spec fn time_seconds(time: Seq<char>) -> Option<int> {
    let parts = split_by(without_offset(time), ':');
    if parts.len() < 3 {
        None
    } else {
        match (
            parsed_signed(parts[0]),
            parsed_signed(parts[1]),
            parsed_signed(ahead_of(parts[2], '.')),
        ) {
            (Some(hour), Some(minute), Some(second)) => Some(
                hour * 3_600 + minute * 60 + second,
            ),
            _ => None,
        }
    }
}

/// The seconds from 1970 to the point in time that a text writes: a date, a `T` and a time
/// of day.
pub open spec fn epoch_seconds(value: Seq<char>) -> Option<int> {
    let body = trimmed(value);
    if !body.contains('T') {
        None
    } else {
        match (date_days(ahead_of(body, 'T')), time_seconds(behind_first(body, 'T'))) {
            (Some(days), Some(seconds)) => Some(days * 86_400 + seconds),
            _ => None,
        }
    }
}

fn parse_date(date: &[char]) -> (days: Option<i128>)
    ensures
        match days {
            Some(n) => date_days(date@) == Some(n as int) && -0x1000_0000_0000_0000_0000 <= n
                <= 0x1000_0000_0000_0000_0000,
            None => date_days(date@) is None,
        },
{
    let parts = split_chars(date, '-');
    if parts.len() < 3 {
        return None;
    }
    assert(texts(parts@)[0] == parts@[0]@ && texts(parts@)[1] == parts@[1]@ && texts(parts@)[2]
        == parts@[2]@);
    let year = parse_signed(&chars_of(parts[0].as_str()));
    let month = parse_signed(&chars_of(parts[1].as_str()));
    let day = parse_signed(&chars_of(parts[2].as_str()));
    match (year, month, day) {
        (Some(y), Some(m), Some(d)) => days_from_civil(y, m, d),
        _ => None,
    }
}

/// The part of a text before the first `c`.
fn before_char(chars: &[char], c: char) -> (head: Vec<char>)
    ensures
        head@ == ahead_of(chars@, c),
{
    let at: usize = find_char(chars, c);
    let head = chars_between(chars, 0, at);
    assert(head@ =~= ahead_of(chars@, c));
    head
}

fn parse_time(time: &[char]) -> (seconds: Option<i128>)
    ensures
        match seconds {
            Some(n) => time_seconds(time@) == Some(n as int) && -0x1_0000_0000_0000_0000_0000 <= n
                <= 0x1_0000_0000_0000_0000_0000,
            None => time_seconds(time@) is None,
        },
{
    let plain = strip_end(time, 'Z');
    let plus: usize = find_char(&plain, '+');
    let minus: usize = find_char(&plain, '-');
    let end: usize = if plus <= minus {
        plus
    } else {
        minus
    };
    let clock = chars_between(&plain, 0, end);
    assert(clock@ =~= without_offset(time@));
    let parts = split_chars(&clock, ':');
    if parts.len() < 3 {
        return None;
    }
    assert(texts(parts@)[0] == parts@[0]@ && texts(parts@)[1] == parts@[1]@ && texts(parts@)[2]
        == parts@[2]@);
    let hour = parse_signed(&chars_of(parts[0].as_str()));
    let minute = parse_signed(&chars_of(parts[1].as_str()));
    let last = chars_of(parts[2].as_str());
    let whole = before_char(&last, '.');
    let second = parse_signed(&whole);
    match (hour, minute, second) {
        (Some(h), Some(m), Some(s)) => Some(
            h as i128 * 3_600 + m as i128 * 60 + s as i128,
        ),
        _ => None,
    }
}

/// The seconds from 1970 to the point in time that a text writes.
pub fn parse_rfc3339_epoch(value: &str) -> (seconds: Option<i128>)
    ensures
        match seconds {
            Some(n) => epoch_seconds(value@) == Some(n as int),
            None => epoch_seconds(value@) is None,
        },
{
    let chars = chars_of(value);
    let body = trim_chars(&chars);
    proof {
        lemma_first_of(body@, 'T');
    }
    let at: usize = find_char(&body, 'T');
    if at == body.len() {
        return None;
    }
    let date = chars_between(&body, 0, at);
    assert(date@ =~= ahead_of(body@, 'T'));
    let time = chars_between(&body, at + 1, body.len());
    assert(time@ =~= behind_first(body@, 'T'));
    match (parse_date(&date), parse_time(&time)) {
        (Some(days), Some(seconds)) => Some(days * 86_400 + seconds),
        _ => None,
    }
}

/// Days count on from date to date: the first of January 1970 is day zero, and within a
/// month each day follows the one before.
pub proof fn law_days_count_on(year: int, month: int, day: int)
    requires
        valid_date(month, day),
    ensures
        civil_days(1970, 1, 1) == 0,
        civil_days(year, month, day + 1) == civil_days(year, month, day) + 1,
        civil_days(year + 1, 1, 1) == civil_days(year, 12, 31) + 1,
        civil_days(year, 3, 1) == civil_days(year, 2, 28) + if is_leap(year) {
            2int
        } else {
            1int
        },
{
    lemma_leap_day(year);
    assert(days_before_year(year + 1) == 365 * year + year / 4 - year / 100 + year / 400);
}

} // verus!
