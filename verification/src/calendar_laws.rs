//! What a written point in time must be read as.

use crate::calendar::{
    ahead_of, civil_days, date_days, epoch_seconds, parsed_signed, signed_body, time_seconds,
    without_offset,
};
use crate::text::{
    all_digits, behind_first, digits_value, first_of, is_digit, is_white, lemma_first_of,
    lemma_split_piece, lemma_trimmed, split_by, trimmed, without_end,
};
use vstd::prelude::*;

verus! {

/// The text writes a number with digits alone.
pub open spec fn writes(s: Seq<char>, n: int) -> bool {
    &&& s.len() > 0
    &&& forall|i: int| 0 <= i < s.len() ==> '0' <= #[trigger] s[i] <= '9'
    &&& n == digits_value(s)
    &&& n < 0x8000_0000_0000_0000
}

proof fn lemma_number(s: Seq<char>, n: int)
    requires
        writes(s, n),
    ensures
        parsed_signed(s) == Some(n),
        all_digits(s),
{
    assert(is_digit(s[0]));
    assert(signed_body(s) == s);
}

proof fn lemma_no_mark(s: Seq<char>, c: char)
    requires
        all_digits(s),
        !is_digit(c),
    ensures
        !s.contains(c),
{
    if s.contains(c) {
        let i = s.index_of(c);
        assert(is_digit(s[i]));
    }
}

proof fn lemma_three_pieces(a: Seq<char>, b: Seq<char>, c: Seq<char>, mark: char)
    requires
        !a.contains(mark),
        !b.contains(mark),
        !c.contains(mark),
    ensures
        split_by(a + seq![mark] + b + seq![mark] + c, mark) == seq![a, b, c],
{
    let front = a + seq![mark] + b;
    lemma_split_piece(Seq::empty(), mark, a);
    lemma_split_piece(a, mark, b);
    assert(a.push(mark) + b =~= front);
    lemma_split_piece(front, mark, c);
    assert(front.push(mark) + c =~= a + seq![mark] + b + seq![mark] + c);
    assert(seq![a].push(b).push(c) =~= seq![a, b, c]);
}

/// A date of digits is read as its days from 1970; a month or a day beyond the calendar is
/// refused.
pub proof fn law_dates_are_read(
    year: (Seq<char>, int),
    month: (Seq<char>, int),
    day: (Seq<char>, int),
)
    requires
        writes(year.0, year.1),
        writes(month.0, month.1),
        writes(day.0, day.1),
    ensures
        date_days(year.0 + seq!['-'] + month.0 + seq!['-'] + day.0) == if 1 <= month.1 <= 12 && 1
            <= day.1 <= 31 {
            Some(civil_days(year.1, month.1, day.1))
        } else {
            None
        },
{
    lemma_number(year.0, year.1);
    lemma_number(month.0, month.1);
    lemma_number(day.0, day.1);
    lemma_no_mark(year.0, '-');
    lemma_no_mark(month.0, '-');
    lemma_no_mark(day.0, '-');
    lemma_three_pieces(year.0, month.0, day.0, '-');
}

proof fn lemma_clock(hour: Seq<char>, minute: Seq<char>, second: Seq<char>)
    requires
        all_digits(hour),
        all_digits(minute),
        all_digits(second),
    ensures
        ({
            let clock = hour + seq![':'] + minute + seq![':'] + second;
            forall|i: int|
                0 <= i < clock.len() ==> is_digit(#[trigger] clock[i]) || clock[i] == ':'
        }),
{
    let clock = hour + seq![':'] + minute + seq![':'] + second;
    assert forall|i: int| 0 <= i < clock.len() implies is_digit(#[trigger] clock[i]) || clock[i]
        == ':' by {
        let h = hour.len() as int;
        let m = minute.len() as int;
        if i < h {
            assert(clock[i] == hour[i]);
        } else if i == h {
            assert(clock[i] == ':');
        } else if i < h + 1 + m {
            assert(clock[i] == minute[i - h - 1]);
        } else if i == h + 1 + m {
            assert(clock[i] == ':');
        } else {
            assert(clock[i] == second[i - h - m - 2]);
        }
    }
}

proof fn lemma_first_absent(s: Seq<char>, c: char)
    requires
        !s.contains(c),
    ensures
        first_of(s, c) == s.len(),
        ahead_of(s, c) == s,
{
    lemma_first_of(s, c);
    assert(s.take(s.len() as int) =~= s);
}

/// A time of day of digits is read as its seconds from midnight, with or without the letter
/// for universal time.
pub proof fn law_times_are_read(
    hour: (Seq<char>, int),
    minute: (Seq<char>, int),
    second: (Seq<char>, int),
)
    requires
        writes(hour.0, hour.1),
        writes(minute.0, minute.1),
        writes(second.0, second.1),
    ensures
        ({
            let clock = hour.0 + seq![':'] + minute.0 + seq![':'] + second.0;
            let seconds = hour.1 * 3_600 + minute.1 * 60 + second.1;
            &&& time_seconds(clock) == Some(seconds)
            &&& time_seconds(clock.push('Z')) == Some(seconds)
        }),
{
    let clock = hour.0 + seq![':'] + minute.0 + seq![':'] + second.0;
    lemma_number(hour.0, hour.1);
    lemma_number(minute.0, minute.1);
    lemma_number(second.0, second.1);
    lemma_no_mark(hour.0, ':');
    lemma_no_mark(minute.0, ':');
    lemma_no_mark(second.0, ':');
    lemma_no_mark(second.0, '.');
    lemma_three_pieces(hour.0, minute.0, second.0, ':');
    lemma_first_absent(second.0, '.');
    lemma_clock(hour.0, minute.0, second.0);
    assert forall|c: char| !is_digit(c) && c != ':' implies !(#[trigger] clock.contains(c)) by {
        if clock.contains(c) {
            let i = clock.index_of(c);
            assert(is_digit(clock[i]) || clock[i] == ':');
        }
    }
    assert(!clock.contains('+'));
    assert(!clock.contains('-'));
    lemma_first_absent(clock, '+');
    lemma_first_absent(clock, '-');
    assert(clock.last() == clock[clock.len() - 1]);
    assert(without_end(clock, 'Z') == clock);
    let marked = clock.push('Z');
    assert(marked.drop_last() =~= clock);
    assert(without_end(marked, 'Z') == without_end(clock, 'Z'));
    assert(without_offset(clock) == clock);
    assert(without_offset(marked) == clock);
}

/// A date, a `T` and a time of day in universal time are read as the seconds from 1970, also
/// between white space.
pub proof fn law_points_in_time_are_read(date: Seq<char>, time: Seq<char>)
    requires
        date.len() > 0,
        time.len() > 0,
        !date.contains('T'),
        !is_white(date[0]),
        !is_white(time.last()),
    ensures
        epoch_seconds(date + seq!['T'] + time) == match (date_days(date), time_seconds(time)) {
            (Some(days), Some(seconds)) => Some(days * 24 * 60 * 60 + seconds),
            _ => None,
        },
{
    let whole = date + seq!['T'] + time;
    assert(whole[0] == date[0]);
    assert(whole.last() == time.last());
    lemma_trimmed(whole);
    assert(whole[date.len() as int] == 'T');
    assert(whole.contains('T'));
    lemma_first_of(whole, 'T');
    let at = first_of(whole, 'T');
    if at < date.len() {
        assert(whole[at] == date[at]);
        assert(date.contains('T'));
    }
    assert(at == date.len());
    assert(ahead_of(whole, 'T') =~= date);
    assert(behind_first(whole, 'T') =~= time);
}

/// A text without a `T` writes no point in time.
pub proof fn law_dates_alone_are_no_points_in_time(value: Seq<char>)
    requires
        !trimmed(value).contains('T'),
    ensures
        epoch_seconds(value) is None,
{
}

/// The months have their lengths.
pub proof fn law_months_have_their_lengths(year: int)
    ensures
        civil_days(year, 2, 1) == civil_days(year, 1, 1) + 31,
        civil_days(year, 4, 1) == civil_days(year, 3, 1) + 31,
        civil_days(year, 5, 1) == civil_days(year, 4, 1) + 30,
        civil_days(year, 6, 1) == civil_days(year, 5, 1) + 31,
        civil_days(year, 7, 1) == civil_days(year, 6, 1) + 30,
        civil_days(year, 8, 1) == civil_days(year, 7, 1) + 31,
        civil_days(year, 9, 1) == civil_days(year, 8, 1) + 31,
        civil_days(year, 10, 1) == civil_days(year, 9, 1) + 30,
        civil_days(year, 11, 1) == civil_days(year, 10, 1) + 31,
        civil_days(year, 12, 1) == civil_days(year, 11, 1) + 30,
        civil_days(year, 3, 1) == civil_days(year, 2, 1) + if year % 400 == 0 || (year % 4 == 0
            && year % 100 != 0) {
            29int
        } else {
            28int
        },
{
}

} // verus!
