//! The civil calendar, and the timestamp format the admin API uses.
//!
//! Dates are proleptic Gregorian and times are UTC. A date is determined by how
//! many days it lies from 1970-01-01, and [`civil_from_days`] finds it by shifting
//! the epoch to the first of March of the year zero, which puts the leap day at
//! the end of the year and makes every month length a linear function of the
//! month's index.
use vstd::prelude::*;
use crate::text;

verus! {

/// A calendar date.
#[derive(Debug, Clone, Copy, PartialEq, Eq, Structural)]
pub struct Date {
    pub year: i64,
    pub month: u32,
    pub day: u32,
}

/// Whether a year has a 29th of February.
pub open spec fn is_leap(year: int) -> bool {
    year % 4 == 0 && (year % 100 != 0 || year % 400 == 0)
}

/// The length of a month.
pub open spec fn days_in_month(year: int, month: int) -> int {
    if month == 2 {
        if is_leap(year) {
            29
        } else {
            28
        }
    } else if month == 4 || month == 6 || month == 9 || month == 11 {
        30
    } else {
        31
    }
}

/// How many days of a year have passed when a month begins.
pub open spec fn days_before_month(year: int, month: int) -> int
    decreases month,
{
    if month <= 1 {
        0
    } else {
        days_before_month(year, month - 1) + days_in_month(year, month - 1)
    }
}

/// How many days lie between 0001-01-01 and the beginning of a year.
pub open spec fn days_before_year(year: int) -> int {
    365 * (year - 1) + (year - 1) / 4 - (year - 1) / 100 + (year - 1) / 400
}

impl Date {
    /// Whether there is such a day.
    pub open spec fn is_real(&self) -> bool {
        1 <= self.month <= 12 && 1 <= self.day <= days_in_month(self.year as int, self.month as int)
    }

    /// How many days lie between 1970-01-01 and this date.
    pub open spec fn day_number(&self) -> int {
        days_before_year(self.year as int) + days_before_month(self.year as int, self.month as int)
            + self.day - 1 - 719_162
    }
}

/// The date that lies `days` days after 1970-01-01.
pub open spec fn date_of(days: int) -> Date {
    choose|date: Date| date.is_real() && date.day_number() == days
}

/// A year is 365 days long, and one day longer when it is a leap year.
pub proof fn years_follow_one_another(year: int)
    ensures
        days_before_year(year + 1) == days_before_year(year) + 365 + (if is_leap(year) {
            1int
        } else {
            0int
        }),
{
    lemma_quotient_steps(year, 4);
    lemma_quotient_steps(year, 100);
    lemma_quotient_steps(year, 400);
    assert(year % 400 == 0 ==> year % 100 == 0 && year % 4 == 0);
    assert(year % 100 == 0 ==> year % 4 == 0);
}

/// A quotient grows by one exactly at the multiples of the divisor.
proof fn lemma_quotient_steps(n: int, d: int)
    requires
        d == 4 || d == 100 || d == 400,
    ensures
        n / d == (n - 1) / d + (if n % d == 0 {
            1int
        } else {
            0int
        }),
{
}

/// Later years begin later.
proof fn lemma_years_are_ordered(a: int, b: int)
    requires
        a <= b,
    ensures
        days_before_year(a) <= days_before_year(b),
    decreases b - a,
{
    if a < b {
        lemma_years_are_ordered(a, b - 1);
        years_follow_one_another(b - 1);
    }
}

/// Every month of a year, and the year's length.
proof fn lemma_months(year: int)
    ensures
        ({
            let leap: int = if is_leap(year) {
                1
            } else {
                0
            };
            &&& days_before_month(year, 1) == 0
            &&& days_before_month(year, 2) == 31
            &&& days_before_month(year, 3) == 59 + leap
            &&& days_before_month(year, 4) == 90 + leap
            &&& days_before_month(year, 5) == 120 + leap
            &&& days_before_month(year, 6) == 151 + leap
            &&& days_before_month(year, 7) == 181 + leap
            &&& days_before_month(year, 8) == 212 + leap
            &&& days_before_month(year, 9) == 243 + leap
            &&& days_before_month(year, 10) == 273 + leap
            &&& days_before_month(year, 11) == 304 + leap
            &&& days_before_month(year, 12) == 334 + leap
            &&& days_before_month(year, 13) == 365 + leap
        }),
{
    reveal_with_fuel(days_before_month, 14);
}

/// A day belongs to one date only.
pub proof fn a_day_has_one_date(a: Date, b: Date)
    requires
        a.is_real(),
        b.is_real(),
        a.day_number() == b.day_number(),
    ensures
        a == b,
{
    lemma_months(a.year as int);
    lemma_months(b.year as int);
    years_follow_one_another(a.year as int);
    years_follow_one_another(b.year as int);
    if a.year < b.year {
        lemma_years_are_ordered(a.year + 1, b.year as int);
    } else if b.year < a.year {
        lemma_years_are_ordered(b.year + 1, a.year as int);
    }
}

/// How many days of a 400-year era, counted from the first of March, have passed
/// when a year of it begins.
spec fn days_before_era_year(y: int) -> int {
    365 * y + y / 4 - y / 100
}

/// The year of the era that a day of it falls into.
spec fn year_of_era(day: int) -> int {
    (day - day / 1460 + day / 36_524 - day / 146_096) / 365
}

/// The day falls into the year it is assigned to.
proof fn lemma_year_of_era(day: int)
    requires
        0 <= day <= 146_096,
    ensures
        0 <= year_of_era(day) <= 399,
        0 <= day - days_before_era_year(year_of_era(day)) <= 365,
        day - days_before_era_year(year_of_era(day)) == 365 ==> is_leap(year_of_era(day) + 1),
{
    if day == 146_096 {
        assert(year_of_era(146_096) == 399);
        assert(days_before_era_year(399) == 145_731);
    } else {
        // A century, then a run of four years, then a year of the four.
        let century = day / 36_524;
        let r = day % 36_524;
        assert(0 <= century <= 3);
        assert(day == 36_524 * century + r);
        let four = r / 1461;
        let b = r % 1461;
        assert(r == 1461 * four + b);
        assert(0 <= four <= 24);
        let t = if b == 1460 {
            3
        } else {
            b / 365
        };
        assert(0 <= t <= 3);
        let extra = (24 * century + four + b) / 1460;
        assert(0 <= extra <= 1);
        assert(day == 1460 * (25 * century + four) + (24 * century + four + b));
        assert(day / 1460 == 25 * century + four + extra);
        assert(day / 146_096 == 0);
        let n = day - day / 1460 + century;
        assert(n == 36_500 * century + 1460 * four + b - extra);
        assert((b - extra) / 365 == t);
        assert(n == 365 * (100 * century + 4 * four) + (b - extra));
        assert(n / 365 == 100 * century + 4 * four + t);
        let y = 100 * century + 4 * four + t;
        assert(year_of_era(day) == y);
        assert(y / 4 == 25 * century + four);
        assert(4 * four + t <= 99);
        assert(y / 100 == century);
        let doy = day - days_before_era_year(y);
        assert(doy == b - 365 * t);
        if doy == 365 {
            assert(b == 1460);
            assert(t == 3);
            assert((y + 1) % 4 == 0);
            // The last run of four years of a century has no 1461st day.
            assert(four < 24) by {
                if four == 24 {
                    assert(r == 1461 * 24 + 1460);
                }
            }
            assert((y + 1) % 100 != 0) by {
                assert(y + 1 == 100 * century + (4 * four + 4));
                assert(4 <= 4 * four + 4 < 100);
            }
        }
    }
}

/// Days since the Unix epoch into a date.
pub fn civil_from_days(days: i64) -> (r: Date)
    requires
        days <= i64::MAX - 719_468,
    ensures
        r.is_real(),
        r.day_number() == days,
        r == date_of(days as int),
        -0x100_0000_0000_0000 < r.year < 0x100_0000_0000_0000,
{
    let z: i64 = days + 719_468;
    let era: i64 = if z >= 0 {
        z / 146_097
    } else {
        -((-z + 146_096) / 146_097)
    };
    assert(0 <= z - era * 146_097 <= 146_096);
    let day_of_era: i64 = z - era * 146_097;
    let year_of_era: i64 = (day_of_era - day_of_era / 1460 + day_of_era / 36_524 - day_of_era / 146_096)
        / 365;
    proof {
        lemma_year_of_era(day_of_era as int);
    }
    let y: i64 = year_of_era + era * 400;
    let day_of_year: i64 = day_of_era - (365 * year_of_era + year_of_era / 4 - year_of_era / 100);
    let month_prime: i64 = (5 * day_of_year + 2) / 153;
    assert(0 <= month_prime <= 11);
    let day: u32 = (day_of_year - (153 * month_prime + 2) / 5 + 1) as u32;
    let month: u32 = if month_prime < 10 {
        (month_prime + 3) as u32
    } else {
        (month_prime - 9) as u32
    };
    let year: i64 = if month <= 2 {
        y + 1
    } else {
        y
    };
    let date = Date { year, month, day };
    proof {
        lemma_shifted_date(y as int, era as int, year_of_era as int, day_of_year as int, date);
        assert(date.is_real() && date.day_number() == days);
        let chosen = date_of(days as int);
        a_day_has_one_date(date, chosen);
    }
    date
}

/// A day of a year that begins in March, as an ordinary date.
#[verifier::spinoff_prover]
#[verifier::rlimit(60)]
proof fn lemma_shifted_date(y: int, era: int, year_of_era: int, day_of_year: int, date: Date)
    requires
        0 <= year_of_era <= 399,
        0 <= day_of_year <= 365,
        day_of_year == 365 ==> is_leap(year_of_era + 1),
        y == year_of_era + era * 400,
        ({
            let month_prime = (5 * day_of_year + 2) / 153;
            &&& date.month == (if month_prime < 10 {
                month_prime + 3
            } else {
                month_prime - 9
            })
            &&& date.day == day_of_year - (153 * month_prime + 2) / 5 + 1
        }),
        date.year == (if date.month <= 2 {
            y + 1
        } else {
            y
        }),
    ensures
        date.is_real(),
        date.day_number() == era * 146_097 + days_before_era_year(year_of_era) + day_of_year - 719_468,
{
    let month_prime = (5 * day_of_year + 2) / 153;
    lemma_months(date.year as int);
    // The era's own leap rule is the calendar's, a whole number of eras later.
    assert((y + 1) % 4 == (year_of_era + 1) % 4);
    assert((y + 1) % 100 == (year_of_era + 1) % 100);
    assert((y + 1) % 400 == (year_of_era + 1) % 400);
    assert(is_leap(y + 1) == is_leap(year_of_era + 1));
    assert(days_before_year(y + 1) == 365 * y + y / 4 - y / 100 + y / 400);
    assert(y / 4 == 100 * era + year_of_era / 4);
    assert(y / 100 == 4 * era + year_of_era / 100);
    assert(y / 400 == era);
    assert(days_before_year(y + 1) == era * 146_097 + days_before_era_year(year_of_era));
    years_follow_one_another(y);
    assert(month_prime == 0 || month_prime == 1 || month_prime == 2 || month_prime == 3 || month_prime == 4
        || month_prime == 5 || month_prime == 6 || month_prime == 7 || month_prime == 8 || month_prime
        == 9 || month_prime == 10 || month_prime == 11);
}

/// A moment, as whole seconds from the Unix epoch.
#[derive(Debug, Clone, Copy, PartialEq, Eq, Structural)]
pub enum Moment {
    /// This many seconds after the epoch.
    Since(u64),
    /// This many seconds before it, as a clock that was stepped back reports.
    Before(u64),
}

/// The signed seconds of a moment, held at the ends of what an `i64` can say.
pub open spec fn epoch_seconds(moment: Moment) -> int {
    match moment {
        Moment::Since(s) => if s <= i64::MAX {
            s as int
        } else {
            i64::MAX as int
        },
        Moment::Before(s) => if s <= i64::MAX {
            -(s as int)
        } else {
            -(i64::MAX as int)
        },
    }
}

/// A year in at least four characters, the sign among them.
pub open spec fn year_text(year: int) -> Seq<char> {
    if year < 0 {
        seq!['-'] + text::zero_padded(text::decimal((-year) as nat), 3)
    } else {
        text::zero_padded(text::decimal(year as nat), 4)
    }
}

/// A number in at least two characters.
pub open spec fn two_digits(n: int) -> Seq<char> {
    text::zero_padded(text::decimal(n as nat), 2)
}

/// A moment as RFC 3339 writes it, in UTC and to the second.
pub open spec fn rfc3339_text(moment: Moment) -> Seq<char> {
    let seconds = epoch_seconds(moment);
    let date = date_of(seconds / 86_400);
    let time = seconds % 86_400;
    date_text(date) + seq!['T'] + time_text(time) + seq!['Z']
}

/// Appends a number in at least `width` characters.
fn push_padded(out: &mut String, n: u64, width: usize)
    ensures
        final(out)@ == old(out)@ + text::zero_padded(text::decimal(n as nat), width as nat),
{
    let digits = text::padded_numeral(n, 10, width);
    text::push_text(out, digits.as_str());
}

/// The day a moment falls on, and the second of that day.
fn day_and_second(moment: Moment) -> (r: (i64, i64))
    ensures
        r.0 == epoch_seconds(moment) / 86_400,
        r.1 == epoch_seconds(moment) % 86_400,
{
    let seconds: i64 = match moment {
        Moment::Since(s) => if s <= i64::MAX as u64 {
            s as i64
        } else {
            i64::MAX
        },
        Moment::Before(s) => if s <= i64::MAX as u64 {
            -(s as i64)
        } else {
            -i64::MAX
        },
    };
    if seconds >= 0 {
        (seconds / 86_400, seconds % 86_400)
    } else {
        (-((-seconds - 1) / 86_400) - 1, 86_399 - (-seconds - 1) % 86_400)
    }
}

/// A date as `YYYY-MM-DD`.
pub open spec fn date_text(date: Date) -> Seq<char> {
    year_text(date.year as int) + seq!['-'] + two_digits(date.month as int) + seq!['-'] + two_digits(
        date.day as int,
    )
}

/// A second of a day as `hh:mm:ss`.
pub open spec fn time_text(time: int) -> Seq<char> {
    two_digits(time / 3600) + seq![':'] + two_digits((time / 60) % 60) + seq![':'] + two_digits(time % 60)
}

/// Appends a date.
fn push_date(out: &mut String, date: Date)
    requires
        date.year > i64::MIN,
    ensures
        final(out)@ == old(out)@ + date_text(date),
{
    let ghost start = out@;
    if date.year < 0 {
        out.push('-');
        push_padded(out, (-date.year) as u64, 3);
    } else {
        push_padded(out, date.year as u64, 4);
    }
    assert(out@ =~= start + year_text(date.year as int));
    out.push('-');
    push_padded(out, date.month as u64, 2);
    out.push('-');
    push_padded(out, date.day as u64, 2);
    assert(out@ =~= start + date_text(date));
}

/// Appends a time of day.
fn push_time(out: &mut String, time: i64)
    requires
        0 <= time < 86_400,
    ensures
        final(out)@ == old(out)@ + time_text(time as int),
{
    let ghost start = out@;
    push_padded(out, (time / 3600) as u64, 2);
    out.push(':');
    push_padded(out, ((time / 60) % 60) as u64, 2);
    out.push(':');
    push_padded(out, (time % 60) as u64, 2);
    assert(out@ =~= start + time_text(time as int));
}

/// Formats a moment as RFC 3339 in UTC, to the second.
pub fn rfc3339(moment: Moment) -> (r: String)
    ensures
        r@ == rfc3339_text(moment),
{
    let (days, time) = day_and_second(moment);
    let date = civil_from_days(days);
    let mut out = String::new();
    push_date(&mut out, date);
    out.push('T');
    push_time(&mut out, time);
    out.push('Z');
    assert(out@ =~= rfc3339_text(moment));
    out
}

/// The first day of the year zero, counted from 1970-01-01.
pub const FIRST_DAY: i64 = -719_528;

/// The last day with a four-digit year, counted from 1970-01-01.
pub const LAST_DAY: i64 = 2_932_896;

/// Every day between those two has a date, with a year of four digits.
proof fn lemma_date(days: int)
    requires
        FIRST_DAY <= days <= LAST_DAY,
    ensures
        date_of(days).is_real(),
        date_of(days).day_number() == days,
        0 <= date_of(days).year <= 9999,
    decreases days - FIRST_DAY,
{
    if days == FIRST_DAY {
        let first = Date { year: 0, month: 1, day: 1 };
        assert(first.is_real() && first.day_number() == FIRST_DAY);
        a_day_has_one_date(first, date_of(days));
    } else {
        lemma_date(days - 1);
        let before = date_of(days - 1);
        lemma_months(before.year as int);
        years_follow_one_another(before.year as int);
        let next = if before.day < days_in_month(before.year as int, before.month as int) {
            Date { day: (before.day + 1) as u32, ..before }
        } else if before.month < 12 {
            Date { month: (before.month + 1) as u32, day: 1, ..before }
        } else {
            Date { year: (before.year + 1) as i64, month: 1, day: 1 }
        };
        assert(next.is_real());
        assert(next.day_number() == days);
        a_day_has_one_date(next, date_of(days));
        if next.year > 9999 {
            lemma_years_are_ordered(10_000, next.year as int);
            lemma_months(next.year as int);
        }
    }
}

/// Later months begin later.
proof fn lemma_months_are_ordered(year: int, a: int, b: int)
    requires
        1 <= a < b <= 12,
    ensures
        days_before_month(year, a) + days_in_month(year, a) <= days_before_month(year, b),
    decreases b - a,
{
    if a + 1 < b {
        lemma_months_are_ordered(year, a, b - 1);
    }
}

/// A later day has a later date.
proof fn lemma_dates_are_ordered(a: Date, b: Date)
    requires
        a.is_real(),
        b.is_real(),
        a.day_number() < b.day_number(),
    ensures
        a.year <= b.year,
        a.year == b.year ==> a.month <= b.month,
        a.year == b.year && a.month == b.month ==> a.day < b.day,
{
    lemma_months(a.year as int);
    lemma_months(b.year as int);
    years_follow_one_another(b.year as int);
    if a.year > b.year {
        lemma_years_are_ordered(b.year + 1, a.year as int);
    } else if a.year == b.year && a.month > b.month {
        lemma_months_are_ordered(a.year as int, b.month as int, a.month as int);
    }
}

/// A later second of a day has a later time.
proof fn lemma_times_are_ordered(x: int, y: int)
    requires
        0 <= x < y < 86_400,
    ensures
        x / 3600 <= y / 3600,
        x / 3600 == y / 3600 ==> (x / 60) % 60 <= (y / 60) % 60,
        x / 3600 == y / 3600 && (x / 60) % 60 == (y / 60) % 60 ==> x % 60 < y % 60,
{
}

/// A decimal digit.
spec fn digit(n: int) -> char {
    text::digit_char((n % 10) as nat)
}

proof fn lemma_two_digits(n: int)
    requires
        0 <= n < 100,
    ensures
        two_digits(n) == seq![digit(n / 10), digit(n)],
        two_digits(n).len() == 2,
        is_digit(two_digits(n)[0]) && is_digit(two_digits(n)[1]),
{
    reveal_with_fuel(text::numeral, 3);
    assert(two_digits(n) =~= seq![digit(n / 10), digit(n)]);
}

/// The digits of a number below ten thousand, without the leading zeros.
proof fn lemma_digits(n: int)
    requires
        0 <= n <= 9999,
    ensures
        n < 10 ==> text::decimal(n as nat) == seq![digit(n)],
        10 <= n < 100 ==> text::decimal(n as nat) == seq![digit(n / 10), digit(n)],
        100 <= n < 1000 ==> text::decimal(n as nat) == seq![
            digit(n / 100),
            digit(n / 10),
            digit(n),
        ],
        1000 <= n ==> text::decimal(n as nat) == seq![
            digit(n / 1000),
            digit(n / 100),
            digit(n / 10),
            digit(n),
        ],
    decreases n,
{
    if n >= 10 {
        lemma_digits(n / 10);
        assert(n / 10 / 10 == n / 100 && n / 10 / 100 == n / 1000);
        assert(text::decimal(n as nat) =~= text::decimal((n / 10) as nat).push(digit(n)));
    }
}

proof fn lemma_year_digits(n: int)
    requires
        0 <= n <= 9999,
    ensures
        year_text(n) == seq![digit(n / 1000), digit(n / 100), digit(n / 10), digit(n)],
        year_text(n).len() == 4,
        forall|i: int| 0 <= i < 4 ==> is_digit(#[trigger] year_text(n)[i]),
{
    lemma_digits(n);
    assert(year_text(n) =~= seq![digit(n / 1000), digit(n / 100), digit(n / 10), digit(n)]);
}

/// Texts that agree up to a place are ordered by what stands there.
proof fn lemma_first_difference(s: Seq<char>, t: Seq<char>, k: int)
    requires
        0 <= k < s.len(),
        s.len() == t.len(),
        forall|i: int| 0 <= i < k ==> s[i] == t[i],
        s[k] < t[k],
    ensures
        text::before(s, t),
    decreases k,
{
    if k > 0 {
        assert forall|i: int| 0 <= i < k - 1 implies s.skip(1)[i] == t.skip(1)[i] by {
            assert(s[i + 1] == t[i + 1]);
        }
        assert(s[0] == t[0]);
        lemma_first_difference(s.skip(1), t.skip(1), k - 1);
    }
}

proof fn lemma_two_digits_are_ordered(n: int, m: int)
    requires
        0 <= n < m < 100,
    ensures
        text::before(two_digits(n), two_digits(m)),
{
    lemma_two_digits(n);
    lemma_two_digits(m);
    if n / 10 < m / 10 {
        lemma_first_difference(two_digits(n), two_digits(m), 0);
    } else {
        lemma_first_difference(two_digits(n), two_digits(m), 1);
    }
}

/// What stands in front decides, and where it is the same, what follows does.
proof fn lemma_front_decides(x: Seq<char>, y: Seq<char>, u: Seq<char>, v: Seq<char>)
    requires
        x.len() == y.len(),
        text::before(x, y) || (x == y && text::before(u, v)),
    ensures
        text::before(x + u, y + v),
    decreases x.len(),
{
    if x.len() == 0 {
        assert(x + u =~= u);
        assert(y + v =~= v);
    } else {
        assert((x + u).skip(1) =~= x.skip(1) + u);
        assert((y + v).skip(1) =~= y.skip(1) + v);
        if x[0] == y[0] {
            lemma_front_decides(x.skip(1), y.skip(1), u, v);
        }
    }
}

/// A year reads as its century and its place in it.
proof fn lemma_year_in_two_parts(n: int)
    requires
        0 <= n <= 9999,
    ensures
        year_text(n) == two_digits(n / 100) + two_digits(n % 100),
        two_digits(n / 100).len() == 2,
{
    lemma_year_digits(n);
    lemma_two_digits(n / 100);
    lemma_two_digits(n % 100);
    assert(n / 100 / 10 == n / 1000);
    assert(((n % 100) / 10) % 10 == (n / 10) % 10);
    assert((n % 100) % 10 == n % 10);
    assert(year_text(n) =~= two_digits(n / 100) + two_digits(n % 100));
}

proof fn lemma_years_read_in_order(n: int, m: int)
    requires
        0 <= n < m <= 9999,
    ensures
        text::before(year_text(n), year_text(m)),
{
    lemma_year_in_two_parts(n);
    lemma_year_in_two_parts(m);
    if n / 100 < m / 100 {
        lemma_two_digits_are_ordered(n / 100, m / 100);
    } else {
        lemma_two_digits_are_ordered(n % 100, m % 100);
    }
    lemma_front_decides(
        two_digits(n / 100),
        two_digits(m / 100),
        two_digits(n % 100),
        two_digits(m % 100),
    );
}

/// A time of day and the end of a timestamp, grouped from the right.
spec fn time_tail(time: int) -> Seq<char> {
    two_digits(time / 3600) + (seq![':'] + (two_digits((time / 60) % 60) + (seq![':'] + (two_digits(
        time % 60,
    ) + seq!['Z']))))
}

/// A timestamp, grouped from the right.
spec fn stamp_text(date: Date, time: int) -> Seq<char> {
    year_text(date.year as int) + (seq!['-'] + (two_digits(date.month as int) + (seq!['-'] + (
    two_digits(date.day as int) + (seq!['T'] + time_tail(time))))))
}

proof fn lemma_regrouped(
    y: Seq<char>,
    m: Seq<char>,
    d: Seq<char>,
    h: Seq<char>,
    n: Seq<char>,
    s: Seq<char>,
)
    ensures
        (y + seq!['-'] + m + seq!['-'] + d) + seq!['T'] + (h + seq![':'] + n + seq![':'] + s)
            + seq!['Z'] == y + (seq!['-'] + (m + (seq!['-'] + (d + (seq!['T'] + (h + (seq![':'] + (n
            + (seq![':'] + (s + seq!['Z'])))))))))),
{
    assert((y + seq!['-'] + m + seq!['-'] + d) + seq!['T'] + (h + seq![':'] + n + seq![':'] + s)
        + seq!['Z'] =~= y + (seq!['-'] + (m + (seq!['-'] + (d + (seq!['T'] + (h + (seq![':'] + (n + (
    seq![':'] + (s + seq!['Z'])))))))))));
}

proof fn lemma_times_read_in_order(x: int, y: int)
    requires
        0 <= x < y < 86_400,
    ensures
        text::before(time_tail(x), time_tail(y)),
{
    lemma_times_are_ordered(x, y);
    let (h, n, s) = (two_digits(x / 3600), two_digits((x / 60) % 60), two_digits(x % 60));
    let (i, o, t) = (two_digits(y / 3600), two_digits((y / 60) % 60), two_digits(y % 60));
    lemma_two_digits(x / 3600);
    lemma_two_digits(y / 3600);
    lemma_two_digits((x / 60) % 60);
    lemma_two_digits((y / 60) % 60);
    lemma_two_digits(x % 60);
    lemma_two_digits(y % 60);
    let (a2, b2) = (s + seq!['Z'], t + seq!['Z']);
    let (a1, b1) = (n + (seq![':'] + a2), o + (seq![':'] + b2));
    if x / 3600 < y / 3600 {
        lemma_two_digits_are_ordered(x / 3600, y / 3600);
    } else {
        if (x / 60) % 60 < (y / 60) % 60 {
            lemma_two_digits_are_ordered((x / 60) % 60, (y / 60) % 60);
        } else {
            lemma_two_digits_are_ordered(x % 60, y % 60);
            lemma_front_decides(s, t, seq!['Z'], seq!['Z']);
            lemma_front_decides(seq![':'], seq![':'], a2, b2);
        }
        lemma_front_decides(n, o, seq![':'] + a2, seq![':'] + b2);
        lemma_front_decides(seq![':'], seq![':'], a1, b1);
    }
    lemma_front_decides(h, i, seq![':'] + a1, seq![':'] + b1);
}

proof fn lemma_stamps_read_in_order(a: Date, x: int, b: Date, y: int)
    requires
        a.is_real(),
        b.is_real(),
        0 <= a.year <= 9999,
        0 <= b.year <= 9999,
        0 <= x < 86_400,
        0 <= y < 86_400,
        a.day_number() < b.day_number() || (a == b && x < y),
    ensures
        text::before(stamp_text(a, x), stamp_text(b, y)),
{
    lemma_year_digits(a.year as int);
    lemma_year_digits(b.year as int);
    lemma_two_digits(a.month as int);
    lemma_two_digits(b.month as int);
    lemma_two_digits(a.day as int);
    lemma_two_digits(b.day as int);
    if a.day_number() < b.day_number() {
        lemma_dates_are_ordered(a, b);
    }
    let (a3, b3) = (seq!['T'] + time_tail(x), seq!['T'] + time_tail(y));
    let (a2, b2) = (two_digits(a.day as int) + a3, two_digits(b.day as int) + b3);
    let (a1, b1) = (
        two_digits(a.month as int) + (seq!['-'] + a2),
        two_digits(b.month as int) + (seq!['-'] + b2),
    );
    if a.year < b.year {
        lemma_years_read_in_order(a.year as int, b.year as int);
    } else {
        if a.month < b.month {
            lemma_two_digits_are_ordered(a.month as int, b.month as int);
        } else {
            if a.day < b.day {
                lemma_two_digits_are_ordered(a.day as int, b.day as int);
            } else {
                lemma_times_read_in_order(x, y);
                lemma_front_decides(seq!['T'], seq!['T'], time_tail(x), time_tail(y));
            }
            lemma_front_decides(two_digits(a.day as int), two_digits(b.day as int), a3, b3);
            lemma_front_decides(seq!['-'], seq!['-'], a2, b2);
        }
        lemma_front_decides(
            two_digits(a.month as int),
            two_digits(b.month as int),
            seq!['-'] + a2,
            seq!['-'] + b2,
        );
        lemma_front_decides(seq!['-'], seq!['-'], a1, b1);
    }
    lemma_front_decides(
        year_text(a.year as int),
        year_text(b.year as int),
        seq!['-'] + a1,
        seq!['-'] + b1,
    );
}

/// The first second of the year zero, counted from the epoch.
pub const START_OF_FOUR_DIGITS: i64 = -62_167_219_200;

/// The first second past the last day with a four-digit year.
pub const END_OF_FOUR_DIGITS: i64 = 253_402_300_800;

/// Does a moment lie in a year that four digits can show?
pub open spec fn has_four_digits(moment: Moment) -> bool {
    START_OF_FOUR_DIGITS <= epoch_seconds(moment) < END_OF_FOUR_DIGITS
}

proof fn lemma_stamp(moment: Moment)
    ensures
        rfc3339_text(moment) == stamp_text(
            date_of(epoch_seconds(moment) / 86_400),
            epoch_seconds(moment) % 86_400,
        ),
{
    let date = date_of(epoch_seconds(moment) / 86_400);
    let time = epoch_seconds(moment) % 86_400;
    lemma_regrouped(
        year_text(date.year as int),
        two_digits(date.month as int),
        two_digits(date.day as int),
        two_digits(time / 3600),
        two_digits((time / 60) % 60),
        two_digits(time % 60),
    );
}

proof fn lemma_later_is_later(a: Moment, b: Moment)
    requires
        has_four_digits(a),
        has_four_digits(b),
        epoch_seconds(a) < epoch_seconds(b),
    ensures
        text::before(rfc3339_text(a), rfc3339_text(b)),
{
    lemma_stamp(a);
    lemma_stamp(b);
    let (x, y) = (epoch_seconds(a), epoch_seconds(b));
    let (first, second) = (x / 86_400, y / 86_400);
    assert(FIRST_DAY <= first <= second <= LAST_DAY);
    assert(first == second ==> x % 86_400 < y % 86_400);
    lemma_date(first);
    lemma_date(second);
    lemma_stamps_read_in_order(date_of(first), x % 86_400, date_of(second), y % 86_400);
}

/// Is a character a decimal digit?
pub open spec fn is_digit(c: char) -> bool {
    '0' <= c <= '9'
}

/// Is some text of the shape `YYYY-MM-DDThh:mm:ssZ`?
pub open spec fn is_stamp(s: Seq<char>) -> bool {
    &&& s.len() == 20
    &&& s[4] == '-' && s[7] == '-' && s[10] == 'T' && s[13] == ':' && s[16] == ':' && s[19] == 'Z'
    &&& forall|i: int|
        0 <= i < 20 && i != 4 && i != 7 && i != 10 && i != 13 && i != 16 && i != 19 ==> is_digit(
            #[trigger] s[i],
        )
}

proof fn lemma_shape(
    y: Seq<char>,
    m: Seq<char>,
    d: Seq<char>,
    h: Seq<char>,
    n: Seq<char>,
    s: Seq<char>,
)
    requires
        all_digits(y, 4),
        all_digits(m, 2),
        all_digits(d, 2),
        all_digits(h, 2),
        all_digits(n, 2),
        all_digits(s, 2),
    ensures
        is_stamp(
            (y + seq!['-'] + m + seq!['-'] + d) + seq!['T'] + (h + seq![':'] + n + seq![':'] + s)
                + seq!['Z'],
        ),
{
}

/// From the year zero to the end of the year 9999, a timestamp has twenty
/// characters in the shape `YYYY-MM-DDThh:mm:ssZ`, and timestamps stand in the order
/// of the moments they name: a list sorted by text is a list sorted by time.
pub proof fn timestamps_sort_as_moments(a: Moment, b: Moment)
    requires
        has_four_digits(a),
        has_four_digits(b),
    ensures
        is_stamp(rfc3339_text(a)),
        text::before(rfc3339_text(a), rfc3339_text(b)) <==> epoch_seconds(a) < epoch_seconds(b),
        rfc3339_text(a) == rfc3339_text(b) <==> epoch_seconds(a) == epoch_seconds(b),
{
    let s = rfc3339_text(a);
    let t = rfc3339_text(b);
    lemma_stamp_shape(a);
    text::lemma_before_is_total(s, t);
    if epoch_seconds(a) < epoch_seconds(b) {
        lemma_later_is_later(a, b);
    } else if epoch_seconds(b) < epoch_seconds(a) {
        lemma_later_is_later(b, a);
        text::lemma_before_is_total(t, s);
    }
}

/// Is some text made of so many digits?
spec fn all_digits(s: Seq<char>, width: nat) -> bool {
    s.len() == width && forall|i: int| 0 <= i < width ==> is_digit(#[trigger] s[i])
}

proof fn lemma_parts_are_digits(date: Date, time: int)
    requires
        date.is_real(),
        0 <= date.year <= 9999,
        0 <= time < 86_400,
    ensures
        all_digits(year_text(date.year as int), 4),
        all_digits(two_digits(date.month as int), 2),
        all_digits(two_digits(date.day as int), 2),
        all_digits(two_digits(time / 3600), 2),
        all_digits(two_digits((time / 60) % 60), 2),
        all_digits(two_digits(time % 60), 2),
{
    assert(all_digits(year_text(date.year as int), 4)) by {
        lemma_year_digits(date.year as int);
    }
    assert(all_digits(two_digits(date.month as int), 2)) by {
        lemma_two_digits(date.month as int);
    }
    assert(all_digits(two_digits(date.day as int), 2)) by {
        lemma_two_digits(date.day as int);
    }
    assert(all_digits(two_digits(time / 3600), 2)) by {
        lemma_two_digits(time / 3600);
    }
    assert(all_digits(two_digits((time / 60) % 60), 2)) by {
        lemma_two_digits((time / 60) % 60);
    }
    assert(all_digits(two_digits(time % 60), 2)) by {
        lemma_two_digits(time % 60);
    }
}

proof fn lemma_stamp_shape(moment: Moment)
    requires
        has_four_digits(moment),
    ensures
        is_stamp(rfc3339_text(moment)),
{
    let days = epoch_seconds(moment) / 86_400;
    let time = epoch_seconds(moment) % 86_400;
    assert(FIRST_DAY <= days <= LAST_DAY);
    lemma_date(days);
    let date = date_of(days);
    lemma_parts_are_digits(date, time);
    lemma_shape(
        year_text(date.year as int),
        two_digits(date.month as int),
        two_digits(date.day as int),
        two_digits(time / 3600),
        two_digits((time / 60) % 60),
        two_digits(time % 60),
    );
}

/// Every fourth year is a leap year, but for the centuries, of which only every
/// fourth is.
pub proof fn every_fourth_year_is_a_leap_year(year: int)
    ensures
        year % 4 != 0 ==> !is_leap(year),
        year % 4 == 0 && year % 100 != 0 ==> is_leap(year),
        year % 100 == 0 && year % 400 != 0 ==> !is_leap(year),
        year % 400 == 0 ==> is_leap(year),
{
    if year % 400 == 0 {
        assert(year % 4 == 0);
    }
}

/// Thirty days have April, June, September and November, and all the rest have
/// thirty-one but for February. Together they are the days of the year.
pub proof fn a_month_has_its_days(year: int)
    ensures
        days_in_month(year, 1) == 31,
        days_in_month(year, 2) == if is_leap(year) {
            29int
        } else {
            28
        },
        days_in_month(year, 3) == 31,
        days_in_month(year, 4) == 30,
        days_in_month(year, 5) == 31,
        days_in_month(year, 6) == 30,
        days_in_month(year, 7) == 31,
        days_in_month(year, 8) == 31,
        days_in_month(year, 9) == 30,
        days_in_month(year, 10) == 31,
        days_in_month(year, 11) == 30,
        days_in_month(year, 12) == 31,
        days_before_month(year, 13) == if is_leap(year) {
            366int
        } else {
            365
        },
{
    lemma_months(year);
    reveal_with_fuel(days_before_month, 14);
}

/// Days are numbered from the first of January 1970, one after the other: within a
/// month, from the last day of a month to the first of the next, and from the last
/// day of a year to the first of the next.
pub proof fn days_follow_one_another(date: Date)
    requires
        date.is_real(),
        date.year < i64::MAX,
    ensures
        (Date { year: 1970, month: 1, day: 1 }).day_number() == 0,
        date.day < days_in_month(date.year as int, date.month as int) ==> (Date {
            day: (date.day + 1) as u32,
            ..date
        }).day_number() == date.day_number() + 1,
        date.day == days_in_month(date.year as int, date.month as int) && date.month < 12 ==> (Date {
            month: (date.month + 1) as u32,
            day: 1,
            ..date
        }).day_number() == date.day_number() + 1,
        date.day == 31 && date.month == 12 ==> (Date {
            year: (date.year + 1) as i64,
            month: 1,
            day: 1,
        }).day_number() == date.day_number() + 1,
{
    lemma_months(date.year as int);
    years_follow_one_another(date.year as int);
    reveal_with_fuel(days_before_month, 14);
}

proof fn lemma_stamp_parts(
    y: Seq<char>,
    m: Seq<char>,
    d: Seq<char>,
    h: Seq<char>,
    n: Seq<char>,
    s: Seq<char>,
)
    requires
        all_digits(y, 4),
        all_digits(m, 2),
        all_digits(d, 2),
        all_digits(h, 2),
        all_digits(n, 2),
        all_digits(s, 2),
    ensures
        ({
            let stamp = (y + seq!['-'] + m + seq!['-'] + d) + seq!['T'] + (h + seq![':'] + n
                + seq![':'] + s) + seq!['Z'];
            &&& stamp.subrange(0, 4) == y
            &&& stamp.subrange(5, 7) == m
            &&& stamp.subrange(8, 10) == d
            &&& stamp.subrange(11, 13) == h
            &&& stamp.subrange(14, 16) == n
            &&& stamp.subrange(17, 19) == s
        }),
{
    let stamp = (y + seq!['-'] + m + seq!['-'] + d) + seq!['T'] + (h + seq![':'] + n + seq![':']
        + s) + seq!['Z'];
    assert(stamp.subrange(0, 4) =~= y);
    assert(stamp.subrange(5, 7) =~= m);
    assert(stamp.subrange(8, 10) =~= d);
    assert(stamp.subrange(11, 13) =~= h);
    assert(stamp.subrange(14, 16) =~= n);
    assert(stamp.subrange(17, 19) =~= s);
}

/// A timestamp reads back: the number of its day, and the hours, the minutes and the
/// seconds on it, are the seconds of the moment it was made from.
pub proof fn a_timestamp_reads_back(moment: Moment)
    requires
        has_four_digits(moment),
    ensures
        ({
            let s = rfc3339_text(moment);
            let date = Date {
                year: text::number_value(s.subrange(0, 4), 10) as i64,
                month: text::number_value(s.subrange(5, 7), 10) as u32,
                day: text::number_value(s.subrange(8, 10), 10) as u32,
            };
            let hours = text::number_value(s.subrange(11, 13), 10);
            let minutes = text::number_value(s.subrange(14, 16), 10);
            let rest = text::number_value(s.subrange(17, 19), 10);
            &&& date.is_real()
            &&& hours < 24 && minutes < 60 && rest < 60
            &&& date.day_number() * 86_400 + hours * 3600 + minutes * 60 + rest == epoch_seconds(
                moment,
            )
        }),
{
    let days = epoch_seconds(moment) / 86_400;
    let time = epoch_seconds(moment) % 86_400;
    assert(FIRST_DAY <= days <= LAST_DAY);
    lemma_date(days);
    let date = date_of(days);
    lemma_parts_are_digits(date, time);
    lemma_stamp_parts(
        year_text(date.year as int),
        two_digits(date.month as int),
        two_digits(date.day as int),
        two_digits(time / 3600),
        two_digits((time / 60) % 60),
        two_digits(time % 60),
    );
    text::padding_keeps_the_number(date.year as nat, 10, 4);
    text::padding_keeps_the_number(date.month as nat, 10, 2);
    text::padding_keeps_the_number(date.day as nat, 10, 2);
    text::padding_keeps_the_number((time / 3600) as nat, 10, 2);
    text::padding_keeps_the_number(((time / 60) % 60) as nat, 10, 2);
    text::padding_keeps_the_number((time % 60) as nat, 10, 2);
}

/// A moment is so many seconds on the one side of the epoch or on the other.
pub proof fn a_moment_lies_before_or_after_the_epoch(s: u64)
    requires
        s <= i64::MAX,
    ensures
        epoch_seconds(Moment::Since(s)) == s,
        epoch_seconds(Moment::Before(s)) == -(s as int),
{
}

} // verus!
