//! Seconds as the collector names them: the clock, the key of a second, and the
//! texts by which a caller may ask for one.
use crate::calendar::{
    civil, is_fraction, iso_text, lemma_before_year_zero, lemma_civil_exists, lemma_civil_is,
    lemma_name_is, nameable, names_second, second_text, CivilSecond, Zone, FIRST_SECOND,
    LAST_SECOND, YEAR_ZERO,
};
use crate::numeral::{
    all_digits, decimal_text, i64_value, is_digit, lemma_decimal_reads_back, read_i64,
};
use crate::text::{
    lemma_span_is, lemma_trimmed_twice, lemma_without_trailing_is, space, trim, trimmed,
};
use std::time::{Duration, SystemTime, SystemTimeError};
use vstd::prelude::*;
use vstd::string::*;

verus! {

// ---------------------------------------------------------------------------
// The clock
// ---------------------------------------------------------------------------
/// A point in time of the system's clock.
#[verifier::external_type_specification]
#[verifier::external_body]
pub struct ExSystemTime(std::time::SystemTime);

/// The error of a clock that stands before the point it is measured from.
#[verifier::external_type_specification]
#[verifier::external_body]
pub struct ExSystemTimeError(std::time::SystemTimeError);

/// `std::time::SystemTime::now`. The clock may show anything, so nothing is claimed.
#[verifier::external_body]
fn system_time() -> SystemTime {
    SystemTime::now()
}

/// The length of time from the Unix epoch to a point in time; none for a point before it.
pub uninterp spec fn since_epoch(time: SystemTime) -> Option<Duration>;

/// The whole seconds of a length of time.
pub uninterp spec fn seconds_of(elapsed: Duration) -> u64;

/// `std::time::SystemTime::duration_since`, from the Unix epoch. An error stands for a
/// point before the epoch. Claims that the outcome depends on the point in time alone.
#[verifier::external_body]
fn since_unix_epoch(time: SystemTime) -> (elapsed: Result<Duration, SystemTimeError>)
    ensures
        match elapsed {
            Ok(duration) => since_epoch(time) == Some(duration),
            Err(_) => since_epoch(time) is None,
        },
{
    time.duration_since(std::time::UNIX_EPOCH)
}

/// `std::time::Duration::as_secs`. Claims that the number depends on the length of time
/// alone.
#[verifier::external_body]
fn whole_seconds(elapsed: Duration) -> (seconds: u64)
    ensures
        seconds == seconds_of(elapsed),
{
    elapsed.as_secs()
}

/// The epoch second that a clock shows which is `elapsed` whole seconds past the epoch,
/// or before it.
pub open spec fn shown_second(elapsed: Option<u64>) -> i64 {
    match elapsed {
        Some(seconds) => seconds as i64,
        None => 0,
    }
}

/// The epoch second that the clock shows at a point in time.
pub open spec fn clock_second(time: SystemTime) -> i64 {
    shown_second(
        match since_epoch(time) {
            Some(elapsed) => Some(seconds_of(elapsed)),
            None => None,
        },
    )
}

/// Whether an epoch second is what the clock shows at some point in time.
pub open spec fn clock_shows(epoch_second: i64) -> bool {
    exists|time: SystemTime| epoch_second == #[trigger] clock_second(time)
}

/// The epoch second for a number of seconds past the epoch; a clock before it reads zero.
pub fn epoch_second_of(elapsed: Option<u64>) -> (epoch_second: i64)
    ensures
        epoch_second == shown_second(elapsed),
{
    match elapsed {
        Some(seconds) => seconds as i64,
        None => 0,
    }
}

/// The current epoch second: what the clock shows at the point in time that it was read.
pub fn epoch_second_now() -> (epoch_second: i64)
    ensures
        clock_shows(epoch_second),
{
    let time = system_time();
    let elapsed = match since_unix_epoch(time) {
        Ok(duration) => Some(whole_seconds(duration)),
        Err(_) => None,
    };
    assert(shown_second(elapsed) == clock_second(time));
    epoch_second_of(elapsed)
}

// ---------------------------------------------------------------------------
// The key of a second
// ---------------------------------------------------------------------------
/// `time::OffsetDateTime::from_unix_timestamp` and `OffsetDateTime::format` with the
/// description `[year]-[month]-[day]T[hour]:[minute]:[second]Z`.
///
/// Claims that the text names the date and time of day in UTC whose number of seconds
/// since the epoch is the argument: zero-padded fields, a sign only before a negative
/// year. The range of years is that of `time` without its `large-dates` feature.
#[verifier::external_body]
fn format_utc(epoch_second: i64) -> (text: String)
    requires
        nameable(epoch_second as int),
    ensures
        names_second(text@, epoch_second as int),
{
    let format = time::format_description::parse_borrowed::<1>(
        "[year]-[month]-[day]T[hour]:[minute]:[second]Z",
    ).expect("format description is well formed");
    time::OffsetDateTime::from_unix_timestamp(epoch_second)
        .expect("epoch second within OffsetDateTime range")
        .format(&format)
        .expect("format infallible for fixed description")
}

/// What `time` reads an RFC 3339 text as: the Unix timestamp of its instant.
pub uninterp spec fn rfc3339_timestamp(text: Seq<char>) -> Option<i64>;

/// `time::OffsetDateTime::parse` with the description `Rfc3339`, then
/// `OffsetDateTime::unix_timestamp`.
///
/// Claims that the outcome depends on the text alone, and that a date and time with an
/// optional fraction and a zone is read as the instant that it denotes, the fraction
/// dropped. Which other texts are read (a leap second, another separator than `T`, a
/// lower-case `z`) is left to the name.
#[verifier::external_body]
fn parse_rfc3339(text: &str) -> (timestamp: Option<i64>)
    ensures
        timestamp == rfc3339_timestamp(text@),
        forall|local: CivilSecond, fraction: Seq<char>, zone: Zone|
            local.valid() && local.year >= 0 && is_fraction(fraction) && zone.valid() && text@
                == #[trigger] iso_text(local, fraction, zone) ==> timestamp == Some(
                (local.epoch_second() - zone.seconds()) as i64,
            ),
{
    time::OffsetDateTime::parse(text, &time::format_description::well_known::Rfc3339)
        .ok()
        .map(|moment| moment.unix_timestamp())
}

/// The key under which an epoch second is retained: its UTC name.
pub fn second_key(epoch_second: i64) -> (key: String)
    requires
        nameable(epoch_second as int),
    ensures
        key@ == second_text(epoch_second as int),
{
    let key = format_utc(epoch_second);
    proof {
        lemma_name_is(key@, epoch_second as int);
    }
    key
}

/// The key of an epoch second, where it has one.
pub fn iso_second(epoch_second: i64) -> (key: Option<String>)
    ensures
        match key {
            Some(text) => nameable(epoch_second as int) && text@ == second_text(epoch_second as int),
            None => !nameable(epoch_second as int),
        },
{
    if FIRST_SECOND <= epoch_second && epoch_second <= LAST_SECOND {
        Some(second_key(epoch_second))
    } else {
        None
    }
}

/// The key of the second that the clock shows at a point in time; none past year 9999.
pub open spec fn stamp_at(time: SystemTime) -> Option<Seq<char>> {
    if nameable(clock_second(time) as int) {
        Some(second_text(clock_second(time) as int))
    } else {
        None
    }
}

/// The key of the current second; none exactly while the clock shows a year past 9999.
pub fn now_iso_second() -> (key: Option<String>)
    ensures
        exists|time: SystemTime|
            match (#[trigger] stamp_at(time), key) {
                (Some(expected), Some(text)) => text@ == expected,
                (None, None) => true,
                _ => false,
            },
{
    let now = epoch_second_now();
    proof {
        let time = choose|time: SystemTime| now == #[trigger] clock_second(time);
        assert(stamp_at(time) == (if nameable(now as int) {
            Some(second_text(now as int))
        } else {
            None
        }));
    }
    iso_second(now)
}

// ---------------------------------------------------------------------------
// Asking for a second
// ---------------------------------------------------------------------------
/// The epoch second that a text asks for: an integer is taken as it is, anything else
/// as an RFC 3339 datetime.
pub open spec fn denoted(value: Seq<char>) -> Option<i64> {
    let raw = trimmed(value);
    if raw.len() == 0 {
        None
    } else {
        match i64_value(raw) {
            Some(epoch_second) => Some(epoch_second),
            None => rfc3339_timestamp(raw),
        }
    }
}

/// Whether a text asks for a second that has a name, or for none.
pub open spec fn answerable(value: Seq<char>) -> bool {
    denoted(value) matches Some(epoch_second) ==> nameable(epoch_second as int)
}

/// The key that a text asks for.
pub open spec fn normalized(value: Seq<char>) -> Option<Seq<char>> {
    match denoted(value) {
        Some(epoch_second) => Some(second_text(epoch_second as int)),
        None => None,
    }
}

/// Whether a text, white space around it aside, is an ISO datetime from year 0 on whose
/// instant lies in the second `epoch_second`.
pub open spec fn iso_denotes(value: Seq<char>, epoch_second: int) -> bool {
    exists|local: CivilSecond, fraction: Seq<char>, zone: Zone|
        local.valid() && local.year >= 0 && is_fraction(fraction) && zone.valid() && trimmed(value)
            == #[trigger] iso_text(local, fraction, zone) && epoch_second == local.epoch_second()
            - zone.seconds()
}

/// An ISO datetime is not an integer.
proof fn lemma_iso_is_no_integer(local: CivilSecond, fraction: Seq<char>, zone: Zone)
    requires
        local.valid(),
        local.year >= 0,
    ensures
        iso_text(local, fraction, zone).len() > 0,
        i64_value(iso_text(local, fraction, zone)) is None,
{
    let s = iso_text(local, fraction, zone);
    assert(s[4] == local.local_text()[4]);
    assert(s[0] == local.local_text()[0]);
    assert(!is_digit(s[4]));
}

/// The epoch second that a text asks for. An ISO datetime asks for the second of its
/// instant in UTC.
pub fn denoted_second(value: &str) -> (epoch_second: Option<i64>)
    ensures
        epoch_second == denoted(value@),
        forall|e: int| #[trigger] iso_denotes(value@, e) ==> epoch_second == Some(e as i64),
{
    let raw = trim(value);
    proof {
        assert forall|e: int| #[trigger] iso_denotes(value@, e) implies raw@.len() > 0 && i64_value(
            raw@,
        ) is None by {
            let (local, fraction, zone) = choose|local: CivilSecond, fraction: Seq<char>, zone: Zone|
                local.valid() && local.year >= 0 && is_fraction(fraction) && zone.valid() && trimmed(
                    value@,
                ) == #[trigger] iso_text(local, fraction, zone) && e == local.epoch_second()
                    - zone.seconds();
            lemma_iso_is_no_integer(local, fraction, zone);
        }
    }
    if raw.is_empty() {
        return None;
    }
    match read_i64(raw) {
        Some(epoch_second) => Some(epoch_second),
        None => parse_rfc3339(raw),
    }
}

/// The instant of an ISO datetime is a 64-bit number of seconds.
proof fn lemma_iso_fits(value: Seq<char>)
    ensures
        forall|e: int| #[trigger] iso_denotes(value, e) ==> i64::MIN <= e <= i64::MAX,
{
    assert forall|e: int| #[trigger] iso_denotes(value, e) implies i64::MIN <= e <= i64::MAX by {
        let (local, fraction, zone) = choose|local: CivilSecond, fraction: Seq<char>, zone: Zone|
            local.valid() && local.year >= 0 && is_fraction(fraction) && zone.valid() && trimmed(
                value,
            ) == #[trigger] iso_text(local, fraction, zone) && e == local.epoch_second()
                - zone.seconds();
        lemma_civil_is(local);
    }
}

/// The key of the second that was asked for, if any.
pub fn key_of(epoch_second: Option<i64>) -> (key: Option<String>)
    requires
        epoch_second matches Some(e) ==> nameable(e as int),
    ensures
        match (epoch_second, key) {
            (Some(e), Some(text)) => text@ == second_text(e as int),
            (None, None) => true,
            _ => false,
        },
{
    match epoch_second {
        Some(e) => Some(second_key(e)),
        None => None,
    }
}

/// The key of the second that a text asks for, as an epoch second or as an ISO datetime.
pub fn normalize_second(value: &str) -> (key: Option<String>)
    requires
        answerable(value@),
    ensures
        match (normalized(value@), key) {
            (Some(expected), Some(text)) => text@ == expected,
            (None, None) => true,
            _ => false,
        },
        forall|e: int| #[trigger]
            iso_denotes(value@, e) ==> (key matches Some(text) && text@ == second_text(e)),
{
    proof {
        lemma_iso_fits(value@);
    }
    key_of(denoted_second(value))
}

/// A text asks for a second outside the years -9999 to 9999.
#[derive(Clone, Copy, Debug, PartialEq, Eq, Structural)]
pub struct SecondOutOfRange {
    pub epoch_second: i64,
}

/// `normalize_second` for any text: a second that has no name is an error.
pub fn try_normalize_second(value: &str) -> (key: Result<Option<String>, SecondOutOfRange>)
    ensures
        match key {
            Ok(Some(text)) => answerable(value@) && normalized(value@) == Some(text@),
            Ok(None) => normalized(value@) is None,
            Err(error) => denoted(value@) == Some(error.epoch_second) && !nameable(
                error.epoch_second as int,
            ),
        },
        forall|e: int| #[trigger]
            iso_denotes(value@, e) && nameable(e) ==> (key matches Ok(Some(text)) && text@
                == second_text(e)),
{
    proof {
        lemma_iso_fits(value@);
    }
    match denoted_second(value) {
        Some(epoch_second) => if FIRST_SECOND <= epoch_second && epoch_second <= LAST_SECOND {
            Ok(normalize_second(value))
        } else {
            Err(SecondOutOfRange { epoch_second })
        },
        None => Ok(normalize_second(value)),
    }
}

// ---------------------------------------------------------------------------
// What the two ways of asking agree on
// ---------------------------------------------------------------------------
/// A text without white space at its ends is not trimmed.
proof fn lemma_nothing_to_trim(s: Seq<char>)
    requires
        s.len() > 0,
        !space()(s[0]),
        !space()(s.last()),
    ensures
        trimmed(s) == s,
{
    lemma_span_is(s, space(), 0);
    assert(s.skip(0) =~= s);
    lemma_without_trailing_is(s, space(), s.len() as int);
    assert(s.take(s.len() as int) =~= s);
}

/// The key of a second from year 0 on asks for that second.
pub proof fn key_asks_for_its_second(epoch_second: int)
    requires
        YEAR_ZERO <= epoch_second <= LAST_SECOND,
    ensures
        iso_denotes(second_text(epoch_second), epoch_second),
{
    lemma_civil_exists(epoch_second);
    let c = civil(epoch_second);
    if c.year < 0 {
        lemma_before_year_zero(c);
    }
    let s = second_text(epoch_second);
    assert(s =~= iso_text(c, Seq::empty(), Zone::Utc));
    assert(s[0] == c.local_text()[0]);
    lemma_nothing_to_trim(s);
    assert(is_fraction(Seq::empty()));
}

/// An epoch second in decimal asks for that second, and so for its key.
pub proof fn epoch_second_asks_for_itself(epoch_second: nat)
    requires
        epoch_second <= i64::MAX,
    ensures
        denoted(decimal_text(epoch_second)) == Some(epoch_second as i64),
        normalized(decimal_text(epoch_second)) == Some(second_text(epoch_second as int)),
{
    let s = decimal_text(epoch_second);
    lemma_decimal_reads_back(epoch_second);
    assert(all_digits(s));
    assert(is_digit(s[0]) && is_digit(s.last()));
    lemma_nothing_to_trim(s);
}

/// White space around what is asked for does not matter.
pub proof fn surrounding_space_is_ignored(value: Seq<char>)
    ensures
        denoted(trimmed(value)) == denoted(value),
        normalized(trimmed(value)) == normalized(value),
{
    lemma_trimmed_twice(value);
}

} // verus!
