//! This machine, as the checks see it: what a command came to, and what a
//! server's date says.
//!
//! Commands are the administrator's own `helm` and `kubectl`, because the
//! chart is what says what runs and an embedded renderer would be a second
//! thing that says it.
use vstd::prelude::*;
use vstd::string::*;

use crate::doctor::{Failed, Failure};
use crate::number::{a_digit, digit, is_digit};
use crate::text::{characters, lossy, lossy_text, part, same, trim, trimmed};

verus! {

// ── What a command came to ───────────────────────────────────────────────────

/// What a command came to that ran: what it said, or, where it failed, what it
/// said on both its outputs, because kubectl says "no" on one and why on the
/// other.
pub open spec fn came_to(success: bool, out: Seq<char>, err: Seq<char>) -> Result<
    Seq<char>,
    Failed,
> {
    if success {
        Ok(out)
    } else {
        Err(Failed::Said(trim(out) + trim(err)))
    }
}

/// What a command came to that ran, by what it said on its two outputs.
pub fn ran_saying(success: bool, out: String, err: &str) -> (r: Result<String, Failure>)
    ensures
        crate::doctor::ran(r) == came_to(success, out@, err@),
{
    if success {
        return Ok(out);
    }
    let mut said = trimmed(out.as_str());
    said.append(trimmed(err).as_str());
    Err(Failure::Said(said))
}

/// What a command came to that ran, by the bytes on its two outputs.
pub fn ran(success: bool, stdout: &[u8], stderr: &[u8]) -> (r: Result<String, Failure>)
    ensures
        crate::doctor::ran(r) == came_to(success, lossy_text(stdout@), lossy_text(stderr@)),
{
    ran_saying(success, lossy(stdout), lossy(stderr).as_str())
}

/// What a command came to that did not run. A program that is not here and a
/// program that failed are two different fixes.
pub fn not_run(program: &str, not_here: bool, failed: &str) -> (failure: Failure)
    ensures
        failure@ == (if not_here {
            Failed::Missing(program@)
        } else {
            Failed::Said(program@ + ": "@ + failed@)
        }),
{
    if not_here {
        return Failure::Missing(program.to_owned());
    }
    let mut said = program.to_owned();
    said.append(": ");
    said.append(failed);
    Failure::Said(said)
}

/// A command that went well came to what it said, as it said it; one that failed
/// came to what it said on both its outputs, each without the white space around
/// it, and never to a success.
pub proof fn a_command_that_failed_says_both_its_outputs(out: Seq<char>, err: Seq<char>)
    ensures
        came_to(true, out, err) == Ok::<Seq<char>, Failed>(out),
        came_to(false, out, err) matches Err(Failed::Said(said)) && said == trim(out) + trim(err),
{
}

// ── The calendar ─────────────────────────────────────────────────────────────

/// A year with a 29 February.
pub open spec fn leap(year: int) -> bool {
    year % 4 == 0 && (year % 100 != 0 || year % 400 == 0)
}

/// The days of a year.
pub open spec fn year_length(year: int) -> int {
    if leap(year) {
        366
    } else {
        365
    }
}

/// The days before a year, from the year nought on.
pub open spec fn before_year(year: nat) -> int
    decreases year,
{
    if year == 0 {
        0
    } else {
        before_year((year - 1) as nat) + year_length(year - 1)
    }
}

/// The days of a month, the first month being January.
pub open spec fn month_length(year: int, month: int) -> int {
    if month == 2 {
        if leap(year) {
            29
        } else {
            28
        }
    } else if month == 4 || month == 6 || month == 9 || month == 11 {
        30
    } else {
        31
    }
}

/// The days of a year before a month.
pub open spec fn before_month(year: int, month: nat) -> int
    decreases month,
{
    if month <= 1 {
        0
    } else {
        before_month(year, (month - 1) as nat) + month_length(year, month - 1)
    }
}

/// The days from the first day of 1970 to a day.
pub open spec fn days_to(year: nat, month: nat, day: nat) -> int {
    before_year(year) + before_month(year as int, month) + day - 1 - before_year(1970)
}

/// The leap years after the year nought, up to and with a year.
#[verifier::opaque]
spec fn leaps(year: int) -> int {
    year / 4 - year / 100 + year / 400
}

proof fn lemma_one_leap(year: int)
    ensures
        leaps(year) == leaps(year - 1) + if leap(year) {
            1int
        } else {
            0int
        },
{
    reveal(leaps);
}

proof fn lemma_leaps_of_an_era(era: int, year: int)
    requires
        0 <= year < 400,
    ensures
        leaps(era * 400 + year) == era * 97 + year / 4 - year / 100,
{
    reveal(leaps);
    let all = era * 400 + year;
    assert(all / 4 == era * 100 + year / 4);
    assert(all / 100 == era * 4 + year / 100);
    assert(all / 400 == era);
}

proof fn lemma_another_era(year: int)
    ensures
        leaps(year + 400) == leaps(year) + 97,
{
    reveal(leaps);
}

proof fn lemma_before_year(year: nat)
    ensures
        before_year(year) == 365 * year + leaps(year - 1) + 1,
    decreases year,
{
    if year > 0 {
        lemma_before_year((year - 1) as nat);
        lemma_one_leap(year - 1);
    } else {
        assert(leaps(-1) == -1) by {
            reveal(leaps);
        }
    }
}

proof fn lemma_before_month(year: int, month: nat)
    requires
        1 <= month <= 12,
    ensures
        before_month(year, month) == (if month <= 2 {
            (153 * (month + 9) + 2) / 5 - 306
        } else {
            (153 * (month - 3) + 2) / 5 + if leap(year) {
                60int
            } else {
                59int
            }
        }),
{
    reveal_with_fuel(before_month, 13);
}

/// Counting from March, which puts a leap year's own day last, the days come
/// out without a table.
proof fn lemma_days(year: nat, month: nat, day: nat)
    requires
        1 <= month <= 12,
    ensures
        ({
            let from_march = year + 400 - if month <= 2 {
                1int
            } else {
                0int
            };
            let era = from_march / 400;
            let of_era = from_march % 400;
            let months = if month > 2 {
                month - 3
            } else {
                month as int + 9
            };
            era * 146097 + of_era * 365 + of_era / 4 - of_era / 100 + (153 * months + 2) / 5 + day
                == days_to(year, month, day) + 719468 + 146097 + 1
        }),
{
    lemma_before_year(year);
    lemma_before_year(1970);
    lemma_before_month(year as int, month);
    let y = year - if month <= 2 {
        1int
    } else {
        0int
    };
    let from_march = y + 400;
    let era = from_march / 400;
    let of_era = from_march % 400;
    assert(from_march == era * 400 + of_era);
    lemma_leaps_of_an_era(era, of_era);
    lemma_another_era(y);
    lemma_one_leap(year as int);
    assert(leaps(1969) == 477) by {
        reveal(leaps);
    }
}

// ── Moments ──────────────────────────────────────────────────────────────────

/// A day, a month, a year, an hour, a minute and a second.
pub struct Moment {
    pub day: nat,
    pub month: nat,
    pub year: nat,
    pub hours: nat,
    pub minutes: nat,
    pub seconds: nat,
}

/// There is such a moment: the year has the month, the month has the day, and a
/// clock can show the time, which has a second more where one is put in.
pub open spec fn exists_in_time(m: Moment) -> bool {
    &&& 1 <= m.month <= 12
    &&& 1 <= m.day <= month_length(m.year as int, m.month as int)
    &&& m.hours < 24
    &&& m.minutes < 60
    &&& m.seconds <= 60
}

/// The seconds from the first moment of 1970 to a moment. A second that is put
/// in counts as the one after it.
pub open spec fn since_epoch(m: Moment) -> int {
    days_to(m.year, m.month, m.day) * 86_400 + m.hours * 3_600 + m.minutes * 60 + m.seconds
}

/// One moment comes before another.
pub open spec fn earlier(a: Moment, b: Moment) -> bool {
    if a.year != b.year {
        a.year < b.year
    } else if a.month != b.month {
        a.month < b.month
    } else if a.day != b.day {
        a.day < b.day
    } else if a.hours != b.hours {
        a.hours < b.hours
    } else if a.minutes != b.minutes {
        a.minutes < b.minutes
    } else {
        a.seconds < b.seconds
    }
}

/// The moment one second after a moment, as a clock and a calendar go on.
pub open spec fn next_second(m: Moment) -> Moment {
    if m.seconds < 59 {
        Moment { seconds: m.seconds + 1, ..m }
    } else if m.minutes < 59 {
        Moment { seconds: 0, minutes: m.minutes + 1, ..m }
    } else if m.hours < 23 {
        Moment { seconds: 0, minutes: 0, hours: m.hours + 1, ..m }
    } else if m.day < month_length(m.year as int, m.month as int) {
        Moment { seconds: 0, minutes: 0, hours: 0, day: m.day + 1, ..m }
    } else if m.month < 12 {
        Moment { seconds: 0, minutes: 0, hours: 0, day: 1, month: m.month + 1, ..m }
    } else {
        Moment { seconds: 0, minutes: 0, hours: 0, day: 1, month: 1, year: m.year + 1 }
    }
}

/// The moment so many seconds after a moment.
pub open spec fn later(m: Moment, n: nat) -> Moment
    decreases n,
{
    if n == 0 {
        m
    } else {
        next_second(later(m, (n - 1) as nat))
    }
}

proof fn lemma_years(a: nat, b: nat)
    requires
        a < b,
    ensures
        before_year(a) + year_length(a as int) <= before_year(b),
    decreases b,
{
    if a < b - 1 {
        lemma_years(a, (b - 1) as nat);
    }
}

proof fn lemma_months(year: int, a: nat, b: nat)
    requires
        1 <= a < b <= 12,
    ensures
        before_month(year, a) + month_length(year, a as int) <= before_month(year, b),
    decreases b,
{
    if a < b - 1 {
        lemma_months(year, a, (b - 1) as nat);
    }
}

proof fn lemma_a_year_of_months(year: int, month: nat)
    requires
        1 <= month <= 12,
    ensures
        before_month(year, 12) + month_length(year, 12) == year_length(year),
        0 <= before_month(year, month),
        before_month(year, month) + month_length(year, month as int) <= year_length(year),
{
    reveal_with_fuel(before_month, 13);
}

proof fn lemma_earlier(a: Moment, b: Moment)
    requires
        exists_in_time(a),
        exists_in_time(b),
        a.seconds < 60,
        earlier(a, b),
    ensures
        since_epoch(a) < since_epoch(b),
{
    if a.year < b.year {
        lemma_years(a.year, b.year);
        lemma_a_year_of_months(a.year as int, a.month);
        lemma_a_year_of_months(b.year as int, b.month);
    } else if a.month < b.month {
        lemma_months(a.year as int, a.month, b.month);
    }
    if a.year != b.year || a.month != b.month || a.day != b.day {
        assert(days_to(a.year, a.month, a.day) < days_to(b.year, b.month, b.day));
    }
}

proof fn lemma_next_second(m: Moment)
    requires
        exists_in_time(m),
        m.seconds < 60,
    ensures
        exists_in_time(next_second(m)),
        next_second(m).seconds < 60,
        since_epoch(next_second(m)) == since_epoch(m) + 1,
{
    if m.month == 12 {
        lemma_a_year_of_months(m.year as int, 12);
    }
    assert(before_year(m.year + 1) == before_year(m.year) + year_length(m.year as int));
    assert(before_month(m.year as int, m.month + 1) == before_month(m.year as int, m.month)
        + month_length(m.year as int, m.month as int));
    assert(before_month((m.year + 1) as int, 1) == 0);
}

proof fn lemma_later(m: Moment, n: nat)
    requires
        exists_in_time(m),
        m.seconds < 60,
    ensures
        exists_in_time(later(m, n)),
        later(m, n).seconds < 60,
        since_epoch(later(m, n)) == since_epoch(m) + n,
    decreases n,
{
    if n > 0 {
        lemma_later(m, (n - 1) as nat);
        lemma_next_second(later(m, (n - 1) as nat));
    }
}

/// Seconds are counted from the first moment of 1970: the moment so many seconds
/// after it, as a clock and a calendar go on, is so many seconds since.
pub proof fn seconds_are_counted_from_the_first_moment_of_1970(n: nat)
    ensures
        since_epoch(
            later(
                Moment { year: 1970, month: 1, day: 1, hours: 0, minutes: 0, seconds: 0 },
                n,
            ),
        ) == n,
{
    let epoch = Moment { year: 1970, month: 1, day: 1, hours: 0, minutes: 0, seconds: 0 };
    lemma_days(1970, 1, 1);
    lemma_later(epoch, n);
}

/// Years are as long as the calendar has them: every fourth has a day more, but
/// of the hundredth years only the four hundredth, and that day is February's.
pub proof fn years_are_as_long_as_the_calendar_has_them(year: int, month: int)
    ensures
        year_length(year) == if year % 400 == 0 || year % 4 == 0 && year % 100 != 0 {
            366int
        } else {
            365int
        },
        month_length(year, 2) == year_length(year) - 337,
        month == 4 || month == 6 || month == 9 || month == 11 ==> month_length(year, month) == 30,
        month == 1 || month == 3 || month == 5 || month == 7 || month == 8 || month == 10 || month
            == 12 ==> month_length(year, month) == 31,
{
}

proof fn lemma_not_before_the_epoch(m: Moment)
    requires
        exists_in_time(m),
    ensures
        days_to(m.year, m.month, m.day) >= 0 <==> m.year >= 1970,
        m.year >= 1970 ==> since_epoch(m) >= 0,
        since_epoch(Moment { day: 1, month: 1, year: 1970, hours: 0, minutes: 0, seconds: 0 }) == 0,
{
    let epoch = Moment { day: 1, month: 1, year: 1970, hours: 0, minutes: 0, seconds: 0 };
    let midnight = Moment { hours: 0, minutes: 0, seconds: 0, ..m };
    assert(before_month(1970, 1) == 0);
    if earlier(midnight, epoch) {
        lemma_earlier(midnight, epoch);
    } else if earlier(epoch, midnight) {
        lemma_earlier(epoch, midnight);
    }
    assert(since_epoch(midnight) == days_to(m.year, m.month, m.day) * 86_400);
}

// ── A server's date ──────────────────────────────────────────────────────────

/// The month that a server's date names.
pub open spec fn month_named(name: Seq<char>) -> Option<nat> {
    if name == "Jan"@ {
        Some(1)
    } else if name == "Feb"@ {
        Some(2)
    } else if name == "Mar"@ {
        Some(3)
    } else if name == "Apr"@ {
        Some(4)
    } else if name == "May"@ {
        Some(5)
    } else if name == "Jun"@ {
        Some(6)
    } else if name == "Jul"@ {
        Some(7)
    } else if name == "Aug"@ {
        Some(8)
    } else if name == "Sep"@ {
        Some(9)
    } else if name == "Oct"@ {
        Some(10)
    } else if name == "Nov"@ {
        Some(11)
    } else if name == "Dec"@ {
        Some(12)
    } else {
        None
    }
}

/// The name of a day of the week, as a server's date has it.
pub open spec fn names_a_day(name: Seq<char>) -> bool {
    name == "Mon"@ || name == "Tue"@ || name == "Wed"@ || name == "Thu"@ || name == "Fri"@ || name
        == "Sat"@ || name == "Sun"@
}

/// The seven days are named by their first three letters.
pub proof fn the_seven_days_are_named()
    ensures
        names_a_day("Mon"@) && names_a_day("Tue"@) && names_a_day("Wed"@) && names_a_day("Thu"@)
            && names_a_day("Fri"@) && names_a_day("Sat"@) && names_a_day("Sun"@),
        forall|name: Seq<char>| #[trigger] names_a_day(name) ==> name.len() == 3,
{
    reveal_strlit("Mon");
    reveal_strlit("Tue");
    reveal_strlit("Wed");
    reveal_strlit("Thu");
    reveal_strlit("Fri");
    reveal_strlit("Sat");
    reveal_strlit("Sun");
}

/// The number that two digits write, if that is what stands there.
pub open spec fn two_digits(s: Seq<char>, at: int) -> Option<nat> {
    if is_digit(s[at]) && is_digit(s[at + 1]) {
        Some((10 * (s[at] as int - 0x30) + (s[at + 1] as int - 0x30)) as nat)
    } else {
        None
    }
}

/// The characters that stand between the parts of a server's date.
pub open spec fn laid_out(said: Seq<char>) -> bool {
    &&& said.len() == 29
    &&& names_a_day(said.subrange(0, 3))
    &&& said[3] == ',' && said[4] == ' '
    &&& said[7] == ' '
    &&& said[11] == ' '
    &&& said[16] == ' '
    &&& said[19] == ':'
    &&& said[22] == ':'
    &&& said[25] == ' ' && said[26] == 'G' && said[27] == 'M' && said[28] == 'T'
}

/// The moment that a server's date says, if it says it as
/// `Wed, 23 Sep 2026 00:12:19 GMT` does and there is such a moment. Which day's
/// name it is says nothing that the date does not.
pub open spec fn moment(said: Seq<char>) -> Option<Moment> {
    if !laid_out(said) {
        None
    } else {
        match (
            two_digits(said, 5),
            month_named(said.subrange(8, 11)),
            two_digits(said, 12),
            two_digits(said, 14),
            two_digits(said, 17),
            two_digits(said, 20),
            two_digits(said, 23),
        ) {
            (
                Some(day),
                Some(month),
                Some(century),
                Some(of_century),
                Some(hours),
                Some(minutes),
                Some(seconds),
            ) => {
                let year = 100 * century + of_century;
                let m = Moment { day, month, year, hours, minutes, seconds };
                if exists_in_time(m) {
                    Some(m)
                } else {
                    None
                }
            },
            _ => None,
        }
    }
}

/// The seconds since the epoch that a server's date says, if it is not before
/// it.
pub open spec fn seconds_said(said: Seq<char>) -> Option<nat> {
    match moment(said) {
        Some(m) => if m.year < 1970 {
            None
        } else {
            Some(since_epoch(m) as nat)
        },
        None => None,
    }
}

/// Two dates are as far apart as the seconds between them: one is so many
/// seconds after the other, as a clock and a calendar go on, exactly where the
/// seconds it is read as are so many more. That holds of every two dates from
/// 1970 on, whatever days they name, but for a second that is put in: it counts
/// as the one after it.
pub proof fn dates_are_as_far_apart_as_the_seconds_between_them(
    one: Seq<char>,
    other: Seq<char>,
    n: nat,
)
    requires
        moment(one) matches Some(m) && m.year >= 1970 && m.seconds < 60,
        moment(other) matches Some(m) && m.year >= 1970 && m.seconds < 60,
    ensures
        seconds_said(one) is Some,
        seconds_said(other) is Some,
        later(moment(one)->0, n) == moment(other)->0 <==> seconds_said(other)->0 == seconds_said(
            one,
        )->0 + n,
        earlier(moment(one)->0, moment(other)->0) <==> seconds_said(one)->0 < seconds_said(
            other,
        )->0,
{
    let a = moment(one)->0;
    let b = moment(other)->0;
    lemma_not_before_the_epoch(a);
    lemma_not_before_the_epoch(b);
    lemma_later(a, n);
    let there = later(a, n);
    if earlier(there, b) {
        lemma_earlier(there, b);
    } else if earlier(b, there) {
        lemma_earlier(b, there);
    }
    if earlier(a, b) {
        lemma_earlier(a, b);
    } else if earlier(b, a) {
        lemma_earlier(b, a);
    }
}

/// A second that is put in is read as the one after it: sixty as the second that
/// follows the fifty-ninth.
pub proof fn a_second_that_is_put_in_counts_as_the_one_after_it(said: Seq<char>)
    requires
        moment(said) matches Some(m) && m.year >= 1970 && m.seconds == 60,
    ensures
        ({
            let m = moment(said)->0;
            seconds_said(said) == Some(
                since_epoch(next_second(Moment { seconds: 59, ..m })) as nat,
            )
        }),
{
    let m = moment(said)->0;
    lemma_next_second(Moment { seconds: 59, ..m });
}

/// The name of a month, as a server's date has it.
pub open spec fn month_name(month: nat) -> Seq<char> {
    if month == 1 {
        "Jan"@
    } else if month == 2 {
        "Feb"@
    } else if month == 3 {
        "Mar"@
    } else if month == 4 {
        "Apr"@
    } else if month == 5 {
        "May"@
    } else if month == 6 {
        "Jun"@
    } else if month == 7 {
        "Jul"@
    } else if month == 8 {
        "Aug"@
    } else if month == 9 {
        "Sep"@
    } else if month == 10 {
        "Oct"@
    } else if month == 11 {
        "Nov"@
    } else {
        "Dec"@
    }
}

/// A number below a hundred, in two digits.
pub open spec fn in_two_digits(n: nat) -> Seq<char> {
    seq![digit((n / 10) as int), digit((n % 10) as int)]
}

/// A moment as a server's date says it, with this as the day's name.
pub open spec fn date_of(day_name: Seq<char>, m: Moment) -> Seq<char> {
    day_name + seq![',', ' '] + in_two_digits(m.day) + seq![' '] + month_name(m.month) + seq![' ']
        + in_two_digits(m.year / 100) + in_two_digits(m.year % 100) + seq![' '] + in_two_digits(
        m.hours,
    ) + seq![':'] + in_two_digits(m.minutes) + seq![':'] + in_two_digits(m.seconds) + seq![
        ' ',
        'G',
        'M',
        'T',
    ]
}

proof fn lemma_names(month: nat, day_name: Seq<char>)
    requires
        1 <= month <= 12,
        names_a_day(day_name),
    ensures
        month_name(month).len() == 3,
        month_named(month_name(month)) == Some(month),
        day_name.len() == 3,
{
    reveal_strlit("Jan");
    reveal_strlit("Feb");
    reveal_strlit("Mar");
    reveal_strlit("Apr");
    reveal_strlit("May");
    reveal_strlit("Jun");
    reveal_strlit("Jul");
    reveal_strlit("Aug");
    reveal_strlit("Sep");
    reveal_strlit("Oct");
    reveal_strlit("Nov");
    reveal_strlit("Dec");
    reveal_strlit("Mon");
    reveal_strlit("Tue");
    reveal_strlit("Wed");
    reveal_strlit("Thu");
    reveal_strlit("Fri");
    reveal_strlit("Sat");
    reveal_strlit("Sun");
    let name = month_name(month);
    let first = (name[0], name[1], name[2]);
    assert(first == (if month == 1 {
        ('J', 'a', 'n')
    } else if month == 2 {
        ('F', 'e', 'b')
    } else if month == 3 {
        ('M', 'a', 'r')
    } else if month == 4 {
        ('A', 'p', 'r')
    } else if month == 5 {
        ('M', 'a', 'y')
    } else if month == 6 {
        ('J', 'u', 'n')
    } else if month == 7 {
        ('J', 'u', 'l')
    } else if month == 8 {
        ('A', 'u', 'g')
    } else if month == 9 {
        ('S', 'e', 'p')
    } else if month == 10 {
        ('O', 'c', 't')
    } else if month == 11 {
        ('N', 'o', 'v')
    } else {
        ('D', 'e', 'c')
    }));
}

/// A date is read as the moment it says: every moment from 1970 to 9999, under
/// any day's name, and the epoch as nought.
pub proof fn a_date_is_read_as_the_moment_it_says(day_name: Seq<char>, m: Moment)
    requires
        names_a_day(day_name),
        exists_in_time(m),
        1970 <= m.year <= 9999,
    ensures
        moment(date_of(day_name, m)) == Some(m),
        seconds_said(date_of(day_name, m)) == Some(since_epoch(m) as nat),
        since_epoch(m) >= 0,
        since_epoch(Moment { day: 1, month: 1, year: 1970, hours: 0, minutes: 0, seconds: 0 }) == 0,
{
    lemma_names(m.month, day_name);
    lemma_not_before_the_epoch(m);
    let said = date_of(day_name, m);
    assert(said.len() == 29);
    assert(said.subrange(0, 3) =~= day_name);
    assert(said.subrange(8, 11) =~= month_name(m.month));
    assert(two_digits(said, 5) == Some(m.day));
    assert(two_digits(said, 12) == Some(m.year / 100));
    assert(two_digits(said, 14) == Some(m.year % 100));
    assert(two_digits(said, 17) == Some(m.hours));
    assert(two_digits(said, 20) == Some(m.minutes));
    assert(two_digits(said, 23) == Some(m.seconds));
}

fn month_of(name: &str) -> (r: Option<u64>)
    ensures
        match r {
            Some(month) => month_named(name@) == Some(month as nat) && 1 <= month <= 12,
            None => month_named(name@) is None,
        },
{
    if same(name, "Jan") {
        Some(1)
    } else if same(name, "Feb") {
        Some(2)
    } else if same(name, "Mar") {
        Some(3)
    } else if same(name, "Apr") {
        Some(4)
    } else if same(name, "May") {
        Some(5)
    } else if same(name, "Jun") {
        Some(6)
    } else if same(name, "Jul") {
        Some(7)
    } else if same(name, "Aug") {
        Some(8)
    } else if same(name, "Sep") {
        Some(9)
    } else if same(name, "Oct") {
        Some(10)
    } else if same(name, "Nov") {
        Some(11)
    } else if same(name, "Dec") {
        Some(12)
    } else {
        None
    }
}

fn a_days_name(name: &str) -> (r: bool)
    ensures
        r == names_a_day(name@),
{
    same(name, "Mon") || same(name, "Tue") || same(name, "Wed") || same(name, "Thu") || same(
        name,
        "Fri",
    ) || same(name, "Sat") || same(name, "Sun")
}

fn two_digits_at(whole: &Vec<char>, at: usize) -> (r: Option<u64>)
    requires
        whole@.len() == 29,
        at < 28,
    ensures
        match r {
            Some(n) => two_digits(whole@, at as int) == Some(n as nat) && n < 100,
            None => two_digits(whole@, at as int) is None,
        },
{
    if !a_digit(whole[at]) || !a_digit(whole[at + 1]) {
        return None;
    }
    Some(10 * (whole[at] as u64 - 0x30) + (whole[at + 1] as u64 - 0x30))
}

fn is_laid_out(whole: &Vec<char>) -> (r: bool)
    ensures
        r == laid_out(whole@),
{
    if whole.len() != 29 {
        return false;
    }
    a_days_name(part(whole, 0, 3).as_str()) && whole[3] == ',' && whole[4] == ' ' && whole[7]
        == ' ' && whole[11] == ' ' && whole[16] == ' ' && whole[19] == ':' && whole[22] == ':'
        && whole[25] == ' ' && whole[26] == 'G' && whole[27] == 'M' && whole[28] == 'T'
}

fn days_of(year: u64, month: u64) -> (days: u64)
    requires
        1 <= month <= 12,
    ensures
        days == month_length(year as int, month as int),
{
    if month == 2 {
        if year % 4 == 0 && (year % 100 != 0 || year % 400 == 0) {
            29
        } else {
            28
        }
    } else if month == 4 || month == 6 || month == 9 || month == 11 {
        30
    } else {
        31
    }
}

/// The seconds since the epoch of a moment, if it is not before it.
fn counted(day: u64, month: u64, year: u64, hours: u64, minutes: u64, seconds: u64) -> (r: Option<
    u64,
>)
    requires
        year <= 9999,
        exists_in_time(
            Moment {
                day: day as nat,
                month: month as nat,
                year: year as nat,
                hours: hours as nat,
                minutes: minutes as nat,
                seconds: seconds as nat,
            },
        ),
    ensures
        ({
            let total = since_epoch(
                Moment {
                    day: day as nat,
                    month: month as nat,
                    year: year as nat,
                    hours: hours as nat,
                    minutes: minutes as nat,
                    seconds: seconds as nat,
                },
            );
            match r {
                Some(n) => year >= 1970 && n == total,
                None => year < 1970,
            }
        }),
{
    proof {
        lemma_days(year as nat, month as nat, day as nat);
        lemma_not_before_the_epoch(
            Moment {
                day: day as nat,
                month: month as nat,
                year: year as nat,
                hours: hours as nat,
                minutes: minutes as nat,
                seconds: seconds as nat,
            },
        );
    }
    let (from_march, months): (u64, u64) = if month <= 2 {
        (year + 399, month + 9)
    } else {
        (year + 400, month - 3)
    };
    let era: u64 = from_march / 400;
    let of_era: u64 = from_march % 400;
    let days: u64 = era * 146_097 + of_era * 365 + of_era / 4 - of_era / 100 + (153 * months + 2)
        / 5 + day;
    let epoch: u64 = 719_468 + 146_097 + 1;
    if days < epoch {
        return None;
    }
    Some((days - epoch) * 86_400 + hours * 3_600 + minutes * 60 + seconds)
}

/// The seconds since the epoch that a server's date says. Anything else is no
/// date rather than a wrong one.
pub fn http_date(said: &str) -> (r: Option<u64>)
    ensures
        match r {
            Some(seconds) => seconds_said(said@) == Some(seconds as nat),
            None => seconds_said(said@) is None,
        },
{
    let whole = characters(said);
    if !is_laid_out(&whole) {
        return None;
    }
    match (
        two_digits_at(&whole, 5),
        month_of(part(&whole, 8, 11).as_str()),
        two_digits_at(&whole, 12),
        two_digits_at(&whole, 14),
        two_digits_at(&whole, 17),
        two_digits_at(&whole, 20),
        two_digits_at(&whole, 23),
    ) {
        (
            Some(day),
            Some(month),
            Some(century),
            Some(of_century),
            Some(hours),
            Some(minutes),
            Some(seconds),
        ) => {
            let year: u64 = 100 * century + of_century;
            if day < 1 || day > days_of(year, month) || hours > 23 || minutes > 59 || seconds
                > 60 {
                return None;
            }
            counted(day, month, year, hours, minutes, seconds)
        },
        _ => None,
    }
}

proof fn lemma_two_digits_back(said: Seq<char>, at: int)
    ensures
        two_digits(said, at) matches Some(n) ==> n < 100 && said[at] == in_two_digits(n)[0]
            && said[at + 1] == in_two_digits(n)[1],
{
    if let Some(n) = two_digits(said, at) {
        let tens = said[at] as int - 0x30;
        let ones = said[at + 1] as int - 0x30;
        assert(0 <= tens <= 9 && 0 <= ones <= 9);
        assert(n / 10 == tens && n % 10 == ones);
    }
}

proof fn lemma_month_back(name: Seq<char>)
    ensures
        month_named(name) matches Some(month) ==> 1 <= month <= 12 && name == month_name(month),
{
}

/// A date is read only where it is written as a server writes it and there is
/// such a moment: it is the moment's own date, letter for letter, under the name
/// of one of the seven days, and its time is one that a clock can show. A date
/// before 1970 has no seconds.
pub proof fn only_a_date_is_read_as_one(said: Seq<char>)
    ensures
        moment(said) matches Some(m) ==> {
            &&& said.subrange(0, 3) == "Mon"@ || said.subrange(0, 3) == "Tue"@ || said.subrange(
                0,
                3,
            ) == "Wed"@ || said.subrange(0, 3) == "Thu"@ || said.subrange(0, 3) == "Fri"@
                || said.subrange(0, 3) == "Sat"@ || said.subrange(0, 3) == "Sun"@
            &&& said == date_of(said.subrange(0, 3), m)
            &&& 1 <= m.month <= 12
            &&& 1 <= m.day <= month_length(m.year as int, m.month as int)
            &&& m.hours <= 23 && m.minutes <= 59 && m.seconds <= 60
            &&& m.year < 1970 ==> seconds_said(said) is None
        },
        moment(said) is None ==> seconds_said(said) is None,
{
    if let Some(m) = moment(said) {
        lemma_two_digits_back(said, 5);
        lemma_two_digits_back(said, 12);
        lemma_two_digits_back(said, 14);
        lemma_two_digits_back(said, 17);
        lemma_two_digits_back(said, 20);
        lemma_two_digits_back(said, 23);
        let day = said.subrange(0, 3);
        let month = said.subrange(8, 11);
        lemma_month_back(month);
        lemma_names(m.month, day);
        let century = two_digits(said, 12)->0;
        let of_century = two_digits(said, 14)->0;
        assert(m.year / 100 == century && m.year % 100 == of_century);
        assert(month[0] == said[8] && month[1] == said[9] && month[2] == said[10]);
        assert(said =~= date_of(day, m));
    }
}

} // verus!
