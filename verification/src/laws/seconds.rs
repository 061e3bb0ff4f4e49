//! Seconds: what the clock shows, how a second is named, and how it is asked for.
use crate::calendar::{
    days_before_month, days_before_year, is_fraction, is_leap, iso_text, lemma_civil_is,
    lemma_year_length, month_length, nameable, second_text, CivilSecond, Zone,
};
use crate::clock::{
    answerable, clock_second, denoted, iso_denotes, normalized, rfc3339_timestamp, seconds_of,
    shown_second, since_epoch, stamp_at,
};
use crate::laws::numbers::written_numbers_are_read_back;
use crate::laws::words::{blank_text_has_no_word, is_blank, trimming_keeps_what_is_between};
use crate::numeral::{
    decimal_text, digit, digits_value, i64_value, is_digit, lemma_decimal_reads_back,
};
use crate::text::is_space;
use std::time::{Duration, SystemTime};
use vstd::prelude::*;
use vstd::string::*;

verus! {

// ---------------------------------------------------------------------------
// The clock
// ---------------------------------------------------------------------------
/// The clock shows the whole seconds since the epoch, and zero before it.
pub proof fn clock_counts_whole_seconds(time: SystemTime, elapsed: Duration, seconds: u64)
    ensures
        seconds <= 0x7fff_ffff_ffff_ffff ==> shown_second(Some(seconds)) == seconds,
        shown_second(None) == 0,
        since_epoch(time) == Some(elapsed) && seconds_of(elapsed) <= 0x7fff_ffff_ffff_ffff
            ==> clock_second(time) == seconds_of(elapsed),
        since_epoch(time) is None ==> clock_second(time) == 0,
{
}

/// What is recorded is stamped with the name of the second that the clock shows, wherever that
/// lies in the years -9999 to 9999.
pub proof fn stamps_name_what_the_clock_shows(time: SystemTime)
    ensures
        -377_705_116_800 <= clock_second(time) <= 253_402_300_799 ==> stamp_at(time) == Some(
            second_text(clock_second(time) as int),
        ),
        !(-377_705_116_800 <= clock_second(time) <= 253_402_300_799) ==> stamp_at(time) is None,
{
}

// ---------------------------------------------------------------------------
// Asking for a second
// ---------------------------------------------------------------------------
/// A number asks for the epoch second that it is, with a sign and white space around it or
/// without.
pub proof fn numbers_ask_for_their_second(n: nat, lead: Seq<char>, trail: Seq<char>)
    requires
        n <= 0x7fff_ffff_ffff_ffff,
        is_blank(lead),
        is_blank(trail),
    ensures
        denoted(lead + decimal_text(n) + trail) == Some(n as i64),
        denoted(lead + (seq!['-'] + decimal_text(n)) + trail) == Some((-(n as int)) as i64),
        denoted(lead + (seq!['+'] + decimal_text(n)) + trail) == Some(n as i64),
{
    written_numbers_are_read_back(n);
    lemma_decimal_reads_back(n);
    let text = decimal_text(n);
    assert(is_digit(text[0]) && is_digit(text[text.len() - 1]));
    let minus = seq!['-'] + text;
    let plus = seq!['+'] + text;
    assert(minus[0] == '-' && minus[minus.len() - 1] == text[text.len() - 1]);
    assert(plus[0] == '+' && plus[plus.len() - 1] == text[text.len() - 1]);
    trimming_keeps_what_is_between(lead, text, trail);
    trimming_keeps_what_is_between(lead, minus, trail);
    trimming_keeps_what_is_between(lead, plus, trail);
}

/// A text that is no number asks for what it is as an RFC 3339 datetime, white space around it
/// aside.
pub proof fn other_texts_are_datetimes(lead: Seq<char>, text: Seq<char>, trail: Seq<char>)
    requires
        is_blank(lead),
        is_blank(trail),
        text.len() > 0,
        !is_space(text[0]),
        !is_space(text[text.len() - 1]),
        i64_value(text) is None,
    ensures
        denoted(lead + text + trail) == rfc3339_timestamp(text),
{
    trimming_keeps_what_is_between(lead, text, trail);
}

/// White space alone asks for nothing.
pub proof fn white_space_asks_for_nothing(text: Seq<char>)
    requires
        is_blank(text),
    ensures
        denoted(text) is None,
        normalized(text) is None,
        answerable(text),
{
    blank_text_has_no_word(text);
}

/// The key that a text asks for is the name of the second that it asks for; it can be answered
/// where that lies in the years -9999 to 9999, or where there is none.
pub proof fn keys_name_what_is_asked_for(text: Seq<char>)
    ensures
        denoted(text) is Some ==> normalized(text) == Some(second_text(denoted(text)->0 as int)),
        denoted(text) is None ==> normalized(text) is None,
        answerable(text) <==> denoted(text) is None || -377_705_116_800 <= denoted(text)->0
            <= 253_402_300_799,
{
}

/// An ISO datetime from year 0 on denotes its instant in UTC: what it says, less the offset,
/// the fraction dropped. White space around it does not matter.
pub proof fn datetimes_denote_their_instant(
    lead: Seq<char>,
    local: CivilSecond,
    fraction: Seq<char>,
    zone: Zone,
    trail: Seq<char>,
)
    requires
        is_blank(lead),
        is_blank(trail),
        local.valid(),
        local.year >= 0,
        is_fraction(fraction),
        zone.valid(),
    ensures
        iso_denotes(
            lead + (local.local_text() + fraction + zone.text()) + trail,
            local.epoch_second() - zone.seconds(),
        ),
{
    let text = iso_text(local, fraction, zone);
    assert(text[0] == local.local_text()[0]);
    assert(text[text.len() - 1] == zone.text()[zone.text().len() - 1]);
    trimming_keeps_what_is_between(lead, text, trail);
}

/// An offset is added to UTC to the east and taken from it to the west.
pub proof fn offsets_are_hours_and_minutes(hours: int, minutes: int)
    ensures
        Zone::Utc.seconds() == 0,
        (Zone::Offset { east: true, hours, minutes }).seconds() == 3600 * hours + 60 * minutes,
        (Zone::Offset { east: false, hours, minutes }).seconds() == -3600 * hours - 60 * minutes,
{
}

// ---------------------------------------------------------------------------
// The calendar
// ---------------------------------------------------------------------------
/// The seconds that have a name are those of the years -9999 to 9999.
pub proof fn named_seconds_are_those_of_the_calendar(epoch_second: int)
    ensures
        nameable(epoch_second) <==> -377_705_116_800 <= epoch_second <= 253_402_300_799,
{
}

/// The months have the days that they have.
pub proof fn months_have_their_days(year: int, month: int)
    ensures
        year % 400 == 0 ==> is_leap(year),
        year % 100 == 0 && year % 400 != 0 ==> !is_leap(year),
        year % 4 == 0 && year % 100 != 0 ==> is_leap(year),
        year % 4 != 0 ==> !is_leap(year),
        month == 1 || month == 3 || month == 5 || month == 7 || month == 8 || month == 10 || month
            == 12 ==> month_length(year, month) == 31,
        month == 4 || month == 6 || month == 9 || month == 11 ==> month_length(year, month) == 30,
        month == 2 && is_leap(year) ==> month_length(year, month) == 29,
        month == 2 && !is_leap(year) ==> month_length(year, month) == 28,
{
}

/// The second after a second: one more, the next minute, the next hour, the next day.
pub open spec fn next_second(c: CivilSecond) -> CivilSecond {
    if c.second < 59 {
        CivilSecond { second: c.second + 1, ..c }
    } else if c.minute < 59 {
        CivilSecond { minute: c.minute + 1, second: 0, ..c }
    } else if c.hour < 23 {
        CivilSecond { hour: c.hour + 1, minute: 0, second: 0, ..c }
    } else if c.day < month_length(c.year, c.month) {
        CivilSecond { day: c.day + 1, hour: 0, minute: 0, second: 0, ..c }
    } else if c.month < 12 {
        CivilSecond { month: c.month + 1, day: 1, hour: 0, minute: 0, second: 0, ..c }
    } else {
        CivilSecond { year: c.year + 1, month: 1, day: 1, hour: 0, minute: 0, second: 0 }
    }
}

/// Seconds are counted from 1970-01-01T00:00:00Z, and each one of the calendar is one later
/// than the one before.
pub proof fn seconds_are_counted_from_the_epoch(c: CivilSecond)
    requires
        c.valid(),
    ensures
        (CivilSecond { year: 1970, month: 1, day: 1, hour: 0, minute: 0, second: 0 }).epoch_second()
            == 0,
        next_second(c).epoch_second() == c.epoch_second() + 1,
{
    lemma_year_length(c.year);
    assert(days_before_year(1970) == 0);
    assert(days_before_month(1970, 1) == 0);
    let next = next_second(c);
    if c.second == 59 && c.minute == 59 && c.hour == 23 {
        assert(next.day_number() == c.day_number() + 1) by {
            if c.day == month_length(c.year, c.month) && c.month == 12 {
                assert(days_before_month(c.year, 13) == days_before_month(c.year, 12)
                    + month_length(c.year, 12));
                assert(days_before_month(next.year, 1) == 0);
            }
        }
    } else {
        assert(next.day_number() == c.day_number());
    }
}

/// The value of two digits.
proof fn lemma_two_digit_value(n: int)
    requires
        0 <= n < 100,
    ensures
        digits_value(seq![digit(n / 10), digit(n % 10)]) == n,
{
    let s = seq![digit(n / 10), digit(n % 10)];
    let t = s.drop_last();
    assert(t =~= seq![digit(n / 10)]);
    assert(t.drop_last() =~= Seq::<char>::empty());
    reveal_with_fuel(digits_value, 3);
    assert(t.last() as int == n / 10 + 48);
    assert(s.last() as int == n % 10 + 48);
}

/// The value of four digits.
proof fn lemma_four_digit_value(n: int)
    requires
        0 <= n < 10000,
    ensures
        digits_value(
            seq![digit(n / 1000), digit(n / 100 % 10), digit(n / 10 % 10), digit(n % 10)],
        ) == n,
{
    let s = seq![digit(n / 1000), digit(n / 100 % 10), digit(n / 10 % 10), digit(n % 10)];
    let t = s.drop_last();
    let u = t.drop_last();
    assert(u =~= seq![digit(n / 100 / 10), digit(n / 100 % 10)]) by {
        assert(n / 1000 == n / 100 / 10);
    }
    lemma_two_digit_value(n / 100);
    assert(digits_value(u) == n / 100);
    assert(digits_value(t) == digits_value(u) * 10 + (t.last() as int - 48));
    assert(digits_value(s) == digits_value(t) * 10 + (s.last() as int - 48));
    assert(t.last() as int == n / 10 % 10 + 48);
    assert(s.last() as int == n % 10 + 48);
    assert(n / 10 == n / 100 * 10 + n / 10 % 10);
    assert(n == n / 10 * 10 + n % 10);
}

/// The name of a second from year 0 on reads as its year, month, day, hour, minute and second,
/// each at its place.
pub proof fn names_read_as_dates(c: CivilSecond)
    requires
        c.valid(),
        c.year >= 0,
    ensures
        ({
            let name = second_text(c.epoch_second());
            &&& name.len() == 20
            &&& digits_value(name.subrange(0, 4)) == c.year
            &&& digits_value(name.subrange(5, 7)) == c.month
            &&& digits_value(name.subrange(8, 10)) == c.day
            &&& digits_value(name.subrange(11, 13)) == c.hour
            &&& digits_value(name.subrange(14, 16)) == c.minute
            &&& digits_value(name.subrange(17, 19)) == c.second
            &&& name[4] == '-' && name[7] == '-' && name[10] == 'T' && name[13] == ':' && name[16]
                == ':' && name[19] == 'Z'
        }),
{
    lemma_civil_is(c);
    let name = c.text();
    let year = c.year;
    lemma_four_digit_value(year);
    lemma_two_digit_value(c.month);
    lemma_two_digit_value(c.day);
    lemma_two_digit_value(c.hour);
    lemma_two_digit_value(c.minute);
    lemma_two_digit_value(c.second);
    assert(name.subrange(0, 4) =~= seq![
        digit(year / 1000),
        digit(year / 100 % 10),
        digit(year / 10 % 10),
        digit(year % 10),
    ]);
    assert(name.subrange(5, 7) =~= seq![digit(c.month / 10), digit(c.month % 10)]);
    assert(name.subrange(8, 10) =~= seq![digit(c.day / 10), digit(c.day % 10)]);
    assert(name.subrange(11, 13) =~= seq![digit(c.hour / 10), digit(c.hour % 10)]);
    assert(name.subrange(14, 16) =~= seq![digit(c.minute / 10), digit(c.minute % 10)]);
    assert(name.subrange(17, 19) =~= seq![digit(c.second / 10), digit(c.second % 10)]);
}

/// The name of a second before year 0 is that of the same date after it with a sign in front.
pub proof fn early_names_have_a_sign(c: CivilSecond)
    requires
        c.valid(),
        c.year < 0,
    ensures
        second_text(c.epoch_second()) == seq!['-'] + (CivilSecond { year: -c.year, ..c }).text(),
{
    lemma_civil_is(c);
    assert(c.text() =~= seq!['-'] + (CivilSecond { year: -c.year, ..c }).text());
}

} // verus!
