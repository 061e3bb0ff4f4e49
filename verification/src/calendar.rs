//! The UTC calendar: what date and time of day an epoch second is, and the text
//! that names it.
use crate::numeral::{all_digits, digit, is_digit};
use crate::text::comes_before;
use vstd::prelude::*;

verus! {

/// The first epoch second that has a name: -9999-01-01T00:00:00Z.
pub const FIRST_SECOND: i64 = -377_705_116_800;

/// The first epoch second of year 0.
pub const YEAR_ZERO: i64 = -62_167_219_200;

/// The last epoch second that has a name: 9999-12-31T23:59:59Z.
pub const LAST_SECOND: i64 = 253_402_300_799;

/// Whether an epoch second lies within the years -9999 to 9999.
pub open spec fn nameable(epoch_second: int) -> bool {
    FIRST_SECOND <= epoch_second <= LAST_SECOND
}

/// A second of the proleptic Gregorian calendar.
pub struct CivilSecond {
    pub year: int,
    pub month: int,
    pub day: int,
    pub hour: int,
    pub minute: int,
    pub second: int,
}

/// Whether a year has a 29th of February.
pub open spec fn is_leap(year: int) -> bool {
    year % 4 == 0 && (year % 100 != 0 || year % 400 == 0)
}

/// The number of days in a month.
pub open spec fn month_length(year: int, month: int) -> int {
    if month == 2 {
        if is_leap(year) {
            29
        } else {
            28
        }
    } else if month == 4 || month == 6 || month == 9 || month == 11 {
        30
    } else {
        31
    }
}

/// The number of days in a year before a month.
pub open spec fn days_before_month(year: int, month: int) -> int
    decreases month,
{
    if month <= 1 {
        0
    } else {
        days_before_month(year, month - 1) + month_length(year, month - 1)
    }
}

/// The number of leap years from year 1 through `year`, counted below zero before that.
pub open spec fn leap_years_through(year: int) -> int {
    year / 4 - year / 100 + year / 400
}

/// The number of days from 1970-01-01 to the first day of a year.
pub open spec fn days_before_year(year: int) -> int {
    365 * (year - 1970) + leap_years_through(year - 1) - leap_years_through(1969)
}

/// The two digits of a number below a hundred.
pub open spec fn two_digits(n: int) -> Seq<char> {
    seq![digit(n / 10), digit(n % 10)]
}

impl CivilSecond {
    /// Whether this is a second of the years -9999 to 9999.
    pub open spec fn valid(self) -> bool {
        &&& -9999 <= self.year <= 9999
        &&& 1 <= self.month <= 12
        &&& 1 <= self.day <= month_length(self.year, self.month)
        &&& 0 <= self.hour < 24
        &&& 0 <= self.minute < 60
        &&& 0 <= self.second < 60
    }

    /// The number of days since 1970-01-01.
    pub open spec fn day_number(self) -> int {
        days_before_year(self.year) + days_before_month(self.year, self.month) + self.day - 1
    }

    /// The number of seconds since 1970-01-01T00:00:00Z, taken as a time in UTC.
    pub open spec fn epoch_second(self) -> int {
        self.day_number() * 86400 + self.hour * 3600 + self.minute * 60 + self.second
    }

    /// The absolute value of the year.
    pub open spec fn year_magnitude(self) -> int {
        if self.year < 0 {
            -self.year
        } else {
            self.year
        }
    }

    /// Date and time without a zone, such as `2026-05-21T10:00:00`.
    pub open spec fn local_text(self) -> Seq<char> {
        let year = self.year_magnitude();
        let text = seq![
            digit(year / 1000),
            digit(year / 100 % 10),
            digit(year / 10 % 10),
            digit(year % 10),
            '-',
            digit(self.month / 10),
            digit(self.month % 10),
            '-',
            digit(self.day / 10),
            digit(self.day % 10),
            'T',
            digit(self.hour / 10),
            digit(self.hour % 10),
            ':',
            digit(self.minute / 10),
            digit(self.minute % 10),
            ':',
            digit(self.second / 10),
            digit(self.second % 10),
        ];
        if self.year < 0 {
            seq!['-'] + text
        } else {
            text
        }
    }

    /// The name of this second in UTC, such as `2026-05-21T10:00:00Z`.
    pub open spec fn text(self) -> Seq<char> {
        self.local_text().push('Z')
    }
}

/// The offset of a local time from UTC.
pub enum Zone {
    Utc,
    Offset { east: bool, hours: int, minutes: int },
}

impl Zone {
    /// Whether the offset is below a day.
    pub open spec fn valid(self) -> bool {
        match self {
            Zone::Utc => true,
            Zone::Offset { hours, minutes, .. } => 0 <= hours < 24 && 0 <= minutes < 60,
        }
    }

    /// How many seconds local time is ahead of UTC.
    pub open spec fn seconds(self) -> int {
        match self {
            Zone::Utc => 0,
            Zone::Offset { east: true, hours, minutes } => hours * 3600 + minutes * 60,
            Zone::Offset { east: false, hours, minutes } => -(hours * 3600 + minutes * 60),
        }
    }

    /// The offset as a text: `Z`, or a sign, hours and minutes such as `+02:00`.
    pub open spec fn text(self) -> Seq<char> {
        match self {
            Zone::Utc => seq!['Z'],
            Zone::Offset { east, hours, minutes } => seq![if east {
                '+'
            } else {
                '-'
            }] + two_digits(hours) + seq![':'] + two_digits(minutes),
        }
    }
}

/// Whether a text is a fraction of a second: nothing, or a point and digits.
pub open spec fn is_fraction(s: Seq<char>) -> bool {
    s.len() > 0 ==> s[0] == '.' && all_digits(s.skip(1))
}

/// An ISO datetime: date and time, a fraction of a second, and a zone.
pub open spec fn iso_text(local: CivilSecond, fraction: Seq<char>, zone: Zone) -> Seq<char> {
    local.local_text() + fraction + zone.text()
}

/// Whether a text names the date and time of day in UTC that is `epoch_second` seconds
/// after 1970-01-01T00:00:00Z.
pub open spec fn names_second(text: Seq<char>, epoch_second: int) -> bool {
    exists|c: CivilSecond|
        c.valid() && #[trigger] c.epoch_second() == epoch_second && text == c.text()
}

/// The date and time of day in UTC of an epoch second.
pub open spec fn civil(epoch_second: int) -> CivilSecond {
    choose|c: CivilSecond| c.valid() && #[trigger] c.epoch_second() == epoch_second
}

/// The name of an epoch second.
pub open spec fn second_text(epoch_second: int) -> Seq<char> {
    civil(epoch_second).text()
}

// ---------------------------------------------------------------------------
// Every second in range has one date
// ---------------------------------------------------------------------------
/// The months of a year together have 365 days, and one more in a leap year.
proof fn lemma_month_sum(year: int)
    ensures
        days_before_month(year, 13) == (if is_leap(year) {
            366int
        } else {
            365
        }),
{
    reveal_with_fuel(days_before_month, 14);
}

/// A year is as long as its months.
pub proof fn lemma_year_length(year: int)
    ensures
        days_before_year(year + 1) == days_before_year(year) + days_before_month(year, 13),
        days_before_month(year, 13) == (if is_leap(year) {
            366int
        } else {
            365
        }),
{
    lemma_month_sum(year);
    assert(year / 4 - (year - 1) / 4 == (if year % 4 == 0 {
        1int
    } else {
        0
    }));
    assert(year / 100 - (year - 1) / 100 == (if year % 100 == 0 {
        1int
    } else {
        0
    }));
    assert(year / 400 - (year - 1) / 400 == (if year % 400 == 0 {
        1int
    } else {
        0
    }));
}

/// A later year begins after an earlier one has ended.
proof fn lemma_years_in_order(earlier: int, later: int)
    requires
        earlier < later,
    ensures
        days_before_year(earlier + 1) <= days_before_year(later),
    decreases later - earlier,
{
    if earlier + 1 < later {
        lemma_years_in_order(earlier, later - 1);
        lemma_year_length(later - 1);
    }
}

/// A later month begins after an earlier one has ended.
proof fn lemma_months_in_order(year: int, earlier: int, later: int)
    requires
        1 <= earlier < later,
    ensures
        days_before_month(year, earlier) + month_length(year, earlier) <= days_before_month(
            year,
            later,
        ),
    decreases later - earlier,
{
    if earlier + 1 < later {
        lemma_months_in_order(year, earlier, later - 1);
    }
}

/// A valid date lies within its year.
proof fn lemma_day_in_year(c: CivilSecond)
    requires
        c.valid(),
    ensures
        days_before_year(c.year) <= c.day_number() < days_before_year(c.year + 1),
{
    lemma_year_length(c.year);
    lemma_months_in_order(c.year, c.month, 13);
    if c.month > 1 {
        lemma_months_in_order(c.year, 1, c.month);
    }
}

/// Two dates of one day number are the same date.
proof fn lemma_one_date(a: CivilSecond, b: CivilSecond)
    requires
        a.valid(),
        b.valid(),
        a.day_number() == b.day_number(),
    ensures
        a.year == b.year,
        a.month == b.month,
        a.day == b.day,
{
    lemma_day_in_year(a);
    lemma_day_in_year(b);
    if a.year < b.year {
        lemma_years_in_order(a.year, b.year);
    } else if b.year < a.year {
        lemma_years_in_order(b.year, a.year);
    }
    if a.month < b.month {
        lemma_months_in_order(a.year, a.month, b.month);
    } else if b.month < a.month {
        lemma_months_in_order(a.year, b.month, a.month);
    }
}

/// Two times of one epoch second are the same time.
pub proof fn lemma_one_civil_second(a: CivilSecond, b: CivilSecond)
    requires
        a.valid(),
        b.valid(),
        a.epoch_second() == b.epoch_second(),
    ensures
        a == b,
{
    assert(a.day_number() == b.day_number());
    lemma_one_date(a, b);
}

/// An epoch second that a valid time stands for is that time, and in range.
pub proof fn lemma_civil_is(c: CivilSecond)
    requires
        c.valid(),
    ensures
        civil(c.epoch_second()) == c,
        second_text(c.epoch_second()) == c.text(),
        nameable(c.epoch_second()),
{
    let found = civil(c.epoch_second());
    lemma_one_civil_second(found, c);
    lemma_day_in_year(c);
    if c.year > -9999 {
        lemma_years_in_order(-9999, c.year);
        lemma_year_length(-9999);
    }
    if c.year < 9999 {
        lemma_years_in_order(c.year, 10000);
    }
    assert(days_before_year(-9999) * 86400 == FIRST_SECOND);
    assert(days_before_year(10000) * 86400 == LAST_SECOND + 1);
}

/// A second of a year below zero lies before year 0.
pub proof fn lemma_before_year_zero(c: CivilSecond)
    requires
        c.valid(),
        c.year < 0,
    ensures
        c.epoch_second() < YEAR_ZERO,
{
    lemma_day_in_year(c);
    lemma_years_in_order(c.year, 0);
    assert(days_before_year(0) * 86400 == YEAR_ZERO);
}

/// What names an epoch second is its name.
pub proof fn lemma_name_is(text: Seq<char>, epoch_second: int)
    requires
        names_second(text, epoch_second),
    ensures
        text == second_text(epoch_second),
{
    let c = choose|c: CivilSecond|
        c.valid() && #[trigger] c.epoch_second() == epoch_second && text == c.text();
    lemma_civil_is(c);
}

/// The year of a day number, searched upwards from `year`.
proof fn lemma_year_of_day(day_number: int, year: int) -> (found: int)
    requires
        days_before_year(year) <= day_number,
    ensures
        year <= found,
        days_before_year(found) <= day_number < days_before_year(found + 1),
    decreases day_number - days_before_year(year),
{
    lemma_year_length(year);
    if day_number < days_before_year(year + 1) {
        year
    } else {
        lemma_year_of_day(day_number, year + 1)
    }
}

/// The month of a day of a year, searched upwards from `month`.
proof fn lemma_month_of_day(year: int, day: int, month: int) -> (found: int)
    requires
        1 <= month <= 12,
        days_before_month(year, month) <= day < days_before_month(year, 13),
    ensures
        month <= found <= 12,
        days_before_month(year, found) <= day < days_before_month(year, found) + month_length(
            year,
            found,
        ),
    decreases 12 - month,
{
    if day < days_before_month(year, month + 1) {
        month
    } else {
        lemma_month_of_day(year, day, month + 1)
    }
}

/// Every epoch second in range has a date and a time of day.
pub proof fn lemma_civil_exists(epoch_second: int)
    requires
        nameable(epoch_second),
    ensures
        civil(epoch_second).valid(),
        civil(epoch_second).epoch_second() == epoch_second,
{
    let day_number = epoch_second / 86400;
    let rest = epoch_second % 86400;
    assert(days_before_year(-9999) * 86400 == FIRST_SECOND);
    assert(days_before_year(10000) * 86400 == LAST_SECOND + 1);
    let year = lemma_year_of_day(day_number, -9999);
    if year >= 10000 {
        if year > 10000 {
            lemma_years_in_order(10000, year);
            lemma_year_length(10000);
        }
    }
    lemma_year_length(year);
    let day = day_number - days_before_year(year);
    let month = lemma_month_of_day(year, day, 1);
    let c = CivilSecond {
        year,
        month,
        day: day - days_before_month(year, month) + 1,
        hour: rest / 3600,
        minute: rest % 3600 / 60,
        second: rest % 60,
    };
    assert(c.valid());
    assert(c.day_number() == day_number);
    assert(c.epoch_second() == epoch_second);
}

// ---------------------------------------------------------------------------
// Every date has one name
// ---------------------------------------------------------------------------
/// Two numbers below a hundred with the same digits are the same.
proof fn lemma_two_digits(a: int, b: int)
    requires
        0 <= a < 100,
        0 <= b < 100,
        digit(a / 10) == digit(b / 10),
        digit(a % 10) == digit(b % 10),
    ensures
        a == b,
{
}

/// Two numbers below ten thousand with the same digits are the same.
proof fn lemma_four_digits(a: int, b: int)
    requires
        0 <= a < 10000,
        0 <= b < 10000,
        digit(a / 1000) == digit(b / 1000),
        digit(a / 100 % 10) == digit(b / 100 % 10),
        digit(a / 10 % 10) == digit(b / 10 % 10),
        digit(a % 10) == digit(b % 10),
    ensures
        a == b,
{
    assert(a / 1000 == b / 1000);
    assert(a / 100 % 10 == b / 100 % 10);
    assert(a / 100 == a / 1000 * 10 + a / 100 % 10);
    assert(b / 100 == b / 1000 * 10 + b / 100 % 10);
    assert(a / 10 == a / 100 * 10 + a / 10 % 10);
    assert(b / 10 == b / 100 * 10 + b / 10 % 10);
}

/// Two times of one name are the same time.
pub proof fn lemma_one_name(a: CivilSecond, b: CivilSecond)
    requires
        a.valid(),
        b.valid(),
        a.text() == b.text(),
    ensures
        a == b,
{
    let s = a.text();
    let t = b.text();
    if a.year < 0 {
        assert(s[0] == '-');
    } else {
        assert(s[0] == digit(a.year_magnitude() / 1000));
    }
    if b.year < 0 {
        assert(t[0] == '-');
    } else {
        assert(t[0] == digit(b.year_magnitude() / 1000));
    }
    assert((a.year < 0) == (b.year < 0));
    let o: int = if a.year < 0 {
        1
    } else {
        0
    };
    assert(s[o] == digit(a.year_magnitude() / 1000) && t[o] == digit(b.year_magnitude() / 1000));
    assert(s[o + 1] == digit(a.year_magnitude() / 100 % 10));
    assert(t[o + 1] == digit(b.year_magnitude() / 100 % 10));
    assert(s[o + 2] == digit(a.year_magnitude() / 10 % 10));
    assert(t[o + 2] == digit(b.year_magnitude() / 10 % 10));
    assert(s[o + 3] == digit(a.year_magnitude() % 10) && t[o + 3] == digit(b.year_magnitude() % 10));
    lemma_four_digits(a.year_magnitude(), b.year_magnitude());
    assert(s[o + 5] == digit(a.month / 10) && t[o + 5] == digit(b.month / 10));
    assert(s[o + 6] == digit(a.month % 10) && t[o + 6] == digit(b.month % 10));
    lemma_two_digits(a.month, b.month);
    assert(s[o + 8] == digit(a.day / 10) && t[o + 8] == digit(b.day / 10));
    assert(s[o + 9] == digit(a.day % 10) && t[o + 9] == digit(b.day % 10));
    lemma_two_digits(a.day, b.day);
    assert(s[o + 11] == digit(a.hour / 10) && t[o + 11] == digit(b.hour / 10));
    assert(s[o + 12] == digit(a.hour % 10) && t[o + 12] == digit(b.hour % 10));
    lemma_two_digits(a.hour, b.hour);
    assert(s[o + 14] == digit(a.minute / 10) && t[o + 14] == digit(b.minute / 10));
    assert(s[o + 15] == digit(a.minute % 10) && t[o + 15] == digit(b.minute % 10));
    lemma_two_digits(a.minute, b.minute);
    assert(s[o + 17] == digit(a.second / 10) && t[o + 17] == digit(b.second / 10));
    assert(s[o + 18] == digit(a.second % 10) && t[o + 18] == digit(b.second % 10));
    lemma_two_digits(a.second, b.second);
}

/// Different epoch seconds have different names.
pub proof fn second_names_are_distinct(a: int, b: int)
    requires
        nameable(a),
        nameable(b),
        a != b,
    ensures
        second_text(a) != second_text(b),
{
    lemma_civil_exists(a);
    lemma_civil_exists(b);
    if second_text(a) == second_text(b) {
        lemma_one_name(civil(a), civil(b));
    }
}

// ---------------------------------------------------------------------------
// Names sort in time order
// ---------------------------------------------------------------------------
/// Whether a text has the shape `dddd-dd-ddTdd:dd:ddZ`, each `d` a digit.
pub open spec fn has_key_shape(s: Seq<char>) -> bool {
    &&& s.len() == 20
    &&& s[4] == '-' && s[7] == '-' && s[10] == 'T' && s[13] == ':' && s[16] == ':' && s[19] == 'Z'
    &&& forall|i: int|
        0 <= i < 19 && i != 4 && i != 7 && i != 10 && i != 13 && i != 16 ==> is_digit(
            #[trigger] s[i],
        )
}

/// The name of a second from year 0 on has the shape of a key.
proof fn lemma_key_shape(c: CivilSecond)
    requires
        c.valid(),
        c.year >= 0,
    ensures
        has_key_shape(c.text()),
{
}

/// Of two numbers below a hundred, the smaller one has the smaller first digit that differs.
proof fn lemma_two_digits_in_order(s: Seq<char>, t: Seq<char>, at: int, a: int, b: int)
    requires
        0 <= a < b < 100,
        0 <= at,
        at + 2 <= s.len(),
        at + 2 <= t.len(),
        s[at] == digit(a / 10) && s[at + 1] == digit(a % 10),
        t[at] == digit(b / 10) && t[at + 1] == digit(b % 10),
        s.take(at) == t.take(at),
    ensures
        comes_before(s, t),
{
    if a / 10 < b / 10 {
        assert(s[at] < t[at]);
    } else {
        assert(a / 10 == b / 10);
        assert(s.take(at + 1) =~= s.take(at).push(s[at]));
        assert(t.take(at + 1) =~= t.take(at).push(t[at]));
        assert(s[at + 1] < t[at + 1]);
    }
}

/// Two texts that begin alike up to a position and agree on the three characters there begin
/// alike for three characters more.
proof fn lemma_three_more(s: Seq<char>, t: Seq<char>, at: int)
    requires
        0 <= at,
        at + 3 <= s.len(),
        at + 3 <= t.len(),
        s.take(at) == t.take(at),
        s[at] == t[at],
        s[at + 1] == t[at + 1],
        s[at + 2] == t[at + 2],
    ensures
        s.take(at + 3) == t.take(at + 3),
{
    assert(s.take(at + 3) =~= s.take(at) + seq![s[at], s[at + 1], s[at + 2]]);
    assert(t.take(at + 3) =~= t.take(at) + seq![t[at], t[at + 1], t[at + 2]]);
}

/// The name of an earlier year sorts before that of a later one.
proof fn lemma_years_sort(a: CivilSecond, b: CivilSecond)
    requires
        a.valid(),
        b.valid(),
        0 <= a.year < b.year,
    ensures
        comes_before(a.text(), b.text()),
{
    let s = a.text();
    let t = b.text();
    let m = a.year;
    let n = b.year;
    assert(s[0] == digit(m / 1000) && t[0] == digit(n / 1000));
    assert(s[1] == digit(m / 100 % 10) && t[1] == digit(n / 100 % 10));
    assert(s[2] == digit(m / 10 % 10) && t[2] == digit(n / 10 % 10));
    assert(s[3] == digit(m % 10) && t[3] == digit(n % 10));
    assert(m / 100 == m / 1000 * 10 + m / 100 % 10 && n / 100 == n / 1000 * 10 + n / 100 % 10);
    assert(m / 10 == m / 100 * 10 + m / 10 % 10 && n / 10 == n / 100 * 10 + n / 10 % 10);
    assert(m == m / 10 * 10 + m % 10 && n == n / 10 * 10 + n % 10);
    let at: int = if m / 1000 < n / 1000 {
        0
    } else if m / 100 < n / 100 {
        1
    } else if m / 10 < n / 10 {
        2
    } else {
        3
    };
    assert(s.take(at) =~= t.take(at));
    assert(s[at] < t[at]);
}

/// The name of an earlier second of a year sorts before that of a later one.
proof fn lemma_same_year_sorts(a: CivilSecond, b: CivilSecond)
    requires
        a.valid(),
        b.valid(),
        0 <= a.year,
        a.year == b.year,
        a.epoch_second() < b.epoch_second(),
    ensures
        comes_before(a.text(), b.text()),
{
    let s = a.text();
    let t = b.text();
    lemma_key_shape(a);
    lemma_key_shape(b);
    assert(s.take(5) =~= t.take(5));
    assert(a.day_number() <= b.day_number());
    if b.month < a.month {
        lemma_months_in_order(a.year, b.month, a.month);
    } else if a.month < b.month {
        lemma_two_digits_in_order(s, t, 5, a.month, b.month);
    } else {
        lemma_three_more(s, t, 5);
        if a.day < b.day {
            lemma_two_digits_in_order(s, t, 8, a.day, b.day);
        } else {
            assert(a.day == b.day);
            lemma_three_more(s, t, 8);
            if a.hour < b.hour {
                lemma_two_digits_in_order(s, t, 11, a.hour, b.hour);
            } else {
                assert(a.hour == b.hour);
                lemma_three_more(s, t, 11);
                if a.minute < b.minute {
                    lemma_two_digits_in_order(s, t, 14, a.minute, b.minute);
                } else {
                    assert(a.minute == b.minute);
                    lemma_three_more(s, t, 14);
                    lemma_two_digits_in_order(s, t, 17, a.second, b.second);
                }
            }
        }
    }
}

/// From year 0 on, the names of seconds have one shape and sort in time order.
pub proof fn second_names_sort_in_time_order(a: int, b: int)
    requires
        YEAR_ZERO <= a < b <= LAST_SECOND,
    ensures
        comes_before(second_text(a), second_text(b)),
        has_key_shape(second_text(a)),
        has_key_shape(second_text(b)),
{
    lemma_civil_exists(a);
    lemma_civil_exists(b);
    let c = civil(a);
    let d = civil(b);
    if c.year < 0 {
        lemma_before_year_zero(c);
    }
    if d.year < 0 {
        lemma_before_year_zero(d);
    }
    lemma_key_shape(c);
    lemma_key_shape(d);
    lemma_day_in_year(c);
    lemma_day_in_year(d);
    if d.year < c.year {
        lemma_years_in_order(d.year, c.year);
    } else if c.year < d.year {
        lemma_years_sort(c, d);
    } else {
        lemma_same_year_sorts(c, d);
    }
}

} // verus!
