//! `dm:` / `dc:` / `da:` filters: calendar days, date expressions, and the
//! instants that they bound.

use crate::text;
use crate::text::{ascii_lower_chars, chars_of, copy_range, is_text, parse_i32, parse_u32};
use crate::text::{strip_prefix, trim};
use chrono::{Datelike, Days, Local, Months, NaiveDate, TimeZone};
use vstd::prelude::*;

verus! {

/// A calendar day.
#[derive(Clone, Copy)]
pub struct Day {
    pub year: i32,
    pub month: u32,
    pub day: u32,
}

/// Whether `y` is a leap year of the Gregorian calendar.
pub open spec fn leap(y: int) -> bool {
    y % 4 == 0 && (y % 100 != 0 || y % 400 == 0)
}

/// How many days the month `m` of the year `y` has.
pub open spec fn month_days(y: int, m: int) -> int {
    if m == 2 {
        if leap(y) {
            29
        } else {
            28
        }
    } else if m == 4 || m == 6 || m == 9 || m == 11 {
        30
    } else {
        31
    }
}

/// How many days of the year `y` come before its month `m`.
pub open spec fn days_before_month(y: int, m: int) -> int
    decreases m,
{
    if m <= 1 {
        0
    } else {
        days_before_month(y, m - 1) + month_days(y, m - 1)
    }
}

/// The number of the first day of the year `y`. Day 1 is the first day of year 1.
pub open spec fn year_start(y: int) -> int {
    365 * (y - 1) + (y - 1) / 4 - (y - 1) / 100 + (y - 1) / 400 + 1
}

/// The number of the first day of a month, counted in months from year 0.
pub open spec fn month_start(month: int) -> int {
    year_start(month / 12) + days_before_month(month / 12, month % 12 + 1)
}

/// Whether the calendar reaches the year `y`.
pub open spec fn year_ok(y: int) -> bool {
    -262143 <= y <= 262142
}

/// Whether the calendar reaches the day with the number `n`.
pub open spec fn day_ok(n: int) -> bool {
    year_start(-262143) <= n < year_start(262143)
}

/// Whether the year, month and day name a day of the calendar.
pub open spec fn ymd_ok(y: int, m: int, d: int) -> bool {
    year_ok(y) && 1 <= m <= 12 && 1 <= d <= month_days(y, m)
}

impl Day {
    /// Whether this is a day of the calendar.
    pub open spec fn valid(self) -> bool {
        ymd_ok(self.year as int, self.month as int, self.day as int)
    }

    /// The number of the day.
    pub open spec fn number(self) -> int {
        year_start(self.year as int) + days_before_month(self.year as int, self.month as int)
            + self.day - 1
    }

    /// The month of the day, counted in months from year 0.
    pub open spec fn month_index(self) -> int {
        self.year * 12 + self.month - 1
    }
}

/// `NaiveDate::from_ymd_opt`: the day with this year, month and day of month,
/// when the calendar has it.
#[verifier::external_body]
fn ymd(year: i32, month: u32, day: u32) -> (r: Option<Day>)
    ensures
        r is Some <==> ymd_ok(year as int, month as int, day as int),
        r matches Some(d) ==> d == (Day { year, month, day }),
{
    let date = NaiveDate::from_ymd_opt(year, month, day)?;
    Some(Day { year: date.year(), month: date.month(), day: date.day() })
}

/// `NaiveDate::checked_add_days`: the day `n` days later, when the calendar
/// reaches it.
#[verifier::external_body]
fn plus_days(d: Day, n: u64) -> (r: Option<Day>)
    requires
        d.valid(),
    ensures
        r is Some <==> day_ok(d.number() + n),
        r matches Some(e) ==> e.valid() && e.number() == d.number() + n,
{
    let date = NaiveDate::from_ymd_opt(d.year, d.month, d.day)?;
    let later = date.checked_add_days(Days::new(n))?;
    Some(Day { year: later.year(), month: later.month(), day: later.day() })
}

/// `NaiveDate::checked_sub_days`: the day `n` days earlier, when the calendar
/// reaches it.
#[verifier::external_body]
fn minus_days(d: Day, n: u64) -> (r: Option<Day>)
    requires
        d.valid(),
    ensures
        r is Some <==> day_ok(d.number() - n),
        r matches Some(e) ==> e.valid() && e.number() == d.number() - n,
{
    let date = NaiveDate::from_ymd_opt(d.year, d.month, d.day)?;
    let earlier = date.checked_sub_days(Days::new(n))?;
    Some(Day { year: earlier.year(), month: earlier.month(), day: earlier.day() })
}

/// Whether `e` is the day `d` moved to the month with the index `month`: the
/// same day of month, or the last one when that month is shorter.
pub open spec fn moved_to_month(d: Day, month: int, e: Day) -> bool {
    let last = month_days(month / 12, month % 12 + 1);
    &&& e.year == month / 12
    &&& e.month == month % 12 + 1
    &&& e.day == if d.day <= last {
        d.day as int
    } else {
        last
    }
}

/// `NaiveDate::checked_add_months`: the day `n` months later, when the calendar
/// reaches that year. A day of month that the later month lacks becomes its last.
#[verifier::external_body]
fn plus_months(d: Day, n: u32) -> (r: Option<Day>)
    requires
        d.valid(),
    ensures
        r is Some <==> year_ok((d.month_index() + n) / 12),
        r matches Some(e) ==> moved_to_month(d, d.month_index() + n, e),
{
    let date = NaiveDate::from_ymd_opt(d.year, d.month, d.day)?;
    let later = date.checked_add_months(Months::new(n))?;
    Some(Day { year: later.year(), month: later.month(), day: later.day() })
}

/// `NaiveDate::checked_sub_months`: the day `n` months earlier, when the calendar
/// reaches that year. A day of month that the earlier month lacks becomes its
/// last.
#[verifier::external_body]
fn minus_months(d: Day, n: u32) -> (r: Option<Day>)
    requires
        d.valid(),
    ensures
        r is Some <==> year_ok((d.month_index() - n) / 12),
        r matches Some(e) ==> moved_to_month(d, d.month_index() - n, e),
{
    let date = NaiveDate::from_ymd_opt(d.year, d.month, d.day)?;
    let earlier = date.checked_sub_months(Months::new(n))?;
    Some(Day { year: earlier.year(), month: earlier.month(), day: earlier.day() })
}

/// `Datelike::with_day`: the day of the same month with the day of month `n`,
/// when the month has it.
#[verifier::external_body]
fn with_day(d: Day, n: u32) -> (r: Option<Day>)
    requires
        d.valid(),
    ensures
        r is Some <==> 1 <= n <= month_days(d.year as int, d.month as int),
        r matches Some(e) ==> e == (Day { year: d.year, month: d.month, day: n }),
{
    let date = NaiveDate::from_ymd_opt(d.year, d.month, d.day)?.with_day(n)?;
    Some(Day { year: date.year(), month: date.month(), day: date.day() })
}

/// `Weekday::num_days_from_monday` of a day's weekday: how many days ago the week
/// began. Day 1 is a Monday.
#[verifier::external_body]
fn days_from_monday(d: Day) -> (r: u32)
    requires
        d.valid(),
    ensures
        r == (d.number() - 1) % 7,
{
    let date = NaiveDate::from_ymd_opt(d.year, d.month, d.day).unwrap();
    date.weekday().num_days_from_monday()
}

/// `Local::now`: the calendar day of the local clock. Which day that is depends on
/// the moment and the time zone.
#[verifier::external_body]
fn today() -> (r: Day)
    ensures
        r.valid(),
{
    let date = Local::now().date_naive();
    Day { year: date.year(), month: date.month(), day: date.day() }
}

/// Whether `ms`, in Unix milliseconds, can be a time zone's midnight of the day
/// with the number `day`: the zone is less than a day off UTC, by whole seconds.
/// Day 719163 is 1970-01-01.
pub open spec fn midnight_of(day: int, ms: i64) -> bool {
    exists|offset: int|
        -86_400 < offset < 86_400 && ms == (day - 719_163) * 86_400_000 - #[trigger] seconds(offset)
            * 1000
}

/// A number of seconds.
pub open spec fn seconds(n: int) -> int {
    n
}

/// `TimeZone::from_local_datetime` of `Local` at midnight: the earliest instant
/// that the local clock shows as the start of the day, if there is one. Which one
/// it is, and whether there is one, depends on the time zone.
#[verifier::external_body]
fn local_midnight_ms(d: Day) -> (r: Option<i64>)
    requires
        d.valid(),
    ensures
        r matches Some(ms) ==> midnight_of(d.number(), ms),
{
    let date = NaiveDate::from_ymd_opt(d.year, d.month, d.day)?;
    let naive = date.and_hms_opt(0, 0, 0)?;
    Some(Local.from_local_datetime(&naive).earliest()?.timestamp_millis())
}

/// Whether the local clock can show `d` as the current day.
pub closed spec fn clock_shows_day(d: Day) -> bool {
    call_ensures(today, (), d)
}

/// Whether the local clock can start the day `d` at the instant `ms`, or have no such
/// instant when that is none.
pub closed spec fn clock_starts_day(d: Day, ms: Option<i64>) -> bool {
    call_ensures(local_midnight_ms, (d,), ms)
}

/// The parts of `cur + s` between its `-` and `/` characters, where `cur` is the
/// part under way.
pub open spec fn parts_from(s: Seq<char>, cur: Seq<char>) -> Seq<Seq<char>>
    decreases s.len(),
{
    if s.len() == 0 {
        seq![cur]
    } else if s[0] == '-' || s[0] == '/' {
        seq![cur] + parts_from(s.drop_first(), Seq::empty())
    } else {
        parts_from(s.drop_first(), cur.push(s[0]))
    }
}

/// The days from `start` up to but not with `end`, when the calendar reaches both.
pub open spec fn span_of(start: int, end: int) -> Option<(int, int)> {
    if day_ok(start) && day_ok(end) {
        Some((start, end))
    } else {
        None
    }
}

/// The days of a whole year.
pub open spec fn year_span(y: int) -> Option<(int, int)> {
    if year_ok(y) && year_ok(y + 1) {
        Some((year_start(y), year_start(y + 1)))
    } else {
        None
    }
}

/// The days of a whole month, given by its index.
pub open spec fn month_span(month: int) -> Option<(int, int)> {
    if year_ok(month / 12) && year_ok((month + 1) / 12) {
        Some((month_start(month), month_start(month + 1)))
    } else {
        None
    }
}

/// The days of an absolute `YYYY`, `YYYY-MM` or `YYYY-MM-DD`, given by its parts.
pub open spec fn absolute_span(parts: Seq<Seq<char>>) -> Option<(int, int)> {
    if parts.len() == 1 {
        match text::i32_value(parts[0]) {
            Some(y) => year_span(y),
            None => None,
        }
    } else if parts.len() == 2 {
        match (text::i32_value(parts[0]), text::u32_value(parts[1])) {
            (Some(y), Some(m)) => if ymd_ok(y, m, 1) {
                month_span(y * 12 + m - 1)
            } else {
                None
            },
            _ => None,
        }
    } else if parts.len() == 3 {
        match (text::i32_value(parts[0]), text::u32_value(parts[1]), text::u32_value(parts[2])) {
            (Some(y), Some(m), Some(d)) => if ymd_ok(y, m, d) {
                let n = year_start(y) + days_before_month(y, m) + d - 1;
                span_of(n, n + 1)
            } else {
                None
            },
            _ => None,
        }
    } else {
        None
    }
}

/// The number of the Monday on or before the day.
pub open spec fn monday(day: int) -> int {
    day - (day - 1) % 7
}

/// The days that a date keyword or an absolute date stands for on the day
/// `today`: from the first number up to but not with the second.
pub open spec fn span(s: Seq<char>, today: Day) -> Option<(int, int)> {
    let t = text::ascii_lowered(text::trimmed(s));
    let n = today.number();
    let y = today.year as int;
    let m = today.month_index();
    if t == "today"@ {
        span_of(n, n + 1)
    } else if t == "yesterday"@ {
        span_of(n - 1, n)
    } else if t == "thisweek"@ {
        span_of(monday(n), monday(n) + 7)
    } else if t == "lastweek"@ {
        span_of(monday(n) - 7, monday(n))
    } else if t == "thismonth"@ {
        month_span(m)
    } else if t == "lastmonth"@ {
        month_span(m - 1)
    } else if t == "thisyear"@ {
        year_span(y)
    } else if t == "lastyear"@ {
        year_span(y - 1)
    } else {
        absolute_span(parts_from(t, Seq::empty()))
    }
}

pub(crate) proof fn lemma_year_length(y: int)
    ensures
        year_start(y + 1) - year_start(y) == if leap(y) {
            366int
        } else {
            365int
        },
{
    let a = y - 1;
    assert(y / 4 - a / 4 == if y % 4 == 0 {
        1int
    } else {
        0int
    });
    assert(y / 100 - a / 100 == if y % 100 == 0 {
        1int
    } else {
        0int
    });
    assert(y / 400 - a / 400 == if y % 400 == 0 {
        1int
    } else {
        0int
    });
}

pub(crate) proof fn lemma_days_before_month(y: int, m: int)
    requires
        1 <= m <= 12,
    ensures
        0 <= days_before_month(y, m),
        days_before_month(y, m) + month_days(y, m) <= year_start(y + 1) - year_start(y),
        m == 12 ==> days_before_month(y, m) + 31 == year_start(y + 1) - year_start(y),
{
    lemma_year_length(y);
    let feb = month_days(y, 2);
    assert(days_before_month(y, 1) == 0);
    assert(days_before_month(y, 2) == 31);
    assert(days_before_month(y, 3) == 31 + feb);
    assert(days_before_month(y, 4) == 62 + feb);
    assert(days_before_month(y, 5) == 92 + feb);
    assert(days_before_month(y, 6) == 123 + feb);
    assert(days_before_month(y, 7) == 153 + feb);
    assert(days_before_month(y, 8) == 184 + feb);
    assert(days_before_month(y, 9) == 215 + feb);
    assert(days_before_month(y, 10) == 245 + feb);
    assert(days_before_month(y, 11) == 276 + feb);
    assert(days_before_month(y, 12) == 306 + feb);
}

pub(crate) proof fn lemma_year_start_monotonic(a: int, b: int)
    requires
        a <= b,
    ensures
        year_start(a) <= year_start(b),
{
    assert((a - 1) / 4 <= (b - 1) / 4);
    assert(365 * (b - a) >= 0);
    assert((b - 1) / 100 - (a - 1) / 100 <= (b - a) / 100 + 1);
}

proof fn lemma_day_ok(d: Day)
    requires
        d.valid(),
    ensures
        day_ok(d.number()),
{
    let y = d.year as int;
    lemma_days_before_month(y, d.month as int);
    lemma_year_start_monotonic(-262143, y);
    lemma_year_start_monotonic(y + 1, 262143);
}

/// The parts of the text between its `-` and `/` characters.
fn split_parts(s: &Vec<char>) -> (r: Vec<Vec<char>>)
    ensures
        r@.map_values(|p: Vec<char>| p@) == parts_from(s@, Seq::empty()),
{
    let mut out: Vec<Vec<char>> = Vec::new();
    let mut cur: Vec<char> = Vec::new();
    let mut i: usize = 0;
    assert(s@.skip(0) =~= s@);
    assert(out@.map_values(|p: Vec<char>| p@) + parts_from(s@, Seq::empty()) =~= parts_from(
        s@,
        Seq::empty(),
    ));
    while i < s.len()
        invariant
            i <= s@.len(),
            out@.map_values(|p: Vec<char>| p@) + parts_from(s@.skip(i as int), cur@) == parts_from(
                s@,
                Seq::empty(),
            ),
        decreases s@.len() - i,
    {
        let ghost before = out@.map_values(|p: Vec<char>| p@);
        let ghost rest = s@.skip(i as int).drop_first();
        assert(rest =~= s@.skip(i + 1));
        let c = s[i];
        if c == '-' || c == '/' {
            let ghost part = cur@;
            out.push(cur);
            cur = Vec::new();
            assert(out@.map_values(|p: Vec<char>| p@) =~= before.push(part));
            assert(before.push(part) + parts_from(rest, Seq::empty()) =~= before + (seq![part]
                + parts_from(rest, Seq::empty())));
            assert(cur@ =~= Seq::empty());
        } else {
            cur.push(c);
        }
        i += 1;
    }
    let ghost before = out@.map_values(|p: Vec<char>| p@);
    let ghost part = cur@;
    out.push(cur);
    assert(out@.map_values(|p: Vec<char>| p@) =~= before + seq![part]);
    out
}

/// Whether the two days bound the span `s`.
spec fn bounds_span(r: Option<(Day, Day)>, s: Option<(int, int)>) -> bool {
    &&& r is Some <==> s is Some
    &&& r matches Some(p) ==> p.0.valid() && p.1.valid() && s == Some((p.0.number(), p.1.number()))
}

proof fn lemma_month_first(d: Day)
    requires
        d.valid(),
        d.day == 1,
    ensures
        d.number() == month_start(d.month_index()),
        d.month_index() / 12 == d.year,
        d.month_index() % 12 + 1 == d.month,
{
}

/// The month of the day `first`, which is the first of its month.
fn month_from(first: Day) -> (r: Option<(Day, Day)>)
    requires
        first.valid(),
        first.day == 1,
    ensures
        bounds_span(r, month_span(first.month_index())),
{
    proof {
        lemma_month_first(first);
    }
    let next = plus_months(first, 1)?;
    proof {
        lemma_month_first(next);
    }
    Some((first, next))
}

/// The whole year `y`.
fn whole_year(y: i32) -> (r: Option<(Day, Day)>)
    ensures
        bounds_span(r, year_span(y as int)),
{
    let next: i32 = y.checked_add(1)?;
    let first = ymd(y, 1, 1)?;
    let last = ymd(next, 1, 1)?;
    Some((first, last))
}

/// Resolve an absolute date, given by its parts.
fn absolute_days(parts: &Vec<Vec<char>>) -> (r: Option<(Day, Day)>)
    ensures
        bounds_span(r, absolute_span(parts@.map_values(|p: Vec<char>| p@))),
{
    let ghost shown = parts@.map_values(|p: Vec<char>| p@);
    if parts.len() == 1 {
        assert(shown[0] == parts@[0]@);
        let y = parse_i32(parts[0].as_slice())?;
        whole_year(y)
    } else if parts.len() == 2 {
        assert(shown[0] == parts@[0]@ && shown[1] == parts@[1]@);
        let y = parse_i32(parts[0].as_slice())?;
        let m = parse_u32(parts[1].as_slice())?;
        let first = ymd(y, m, 1)?;
        month_from(first)
    } else if parts.len() == 3 {
        assert(shown[0] == parts@[0]@ && shown[1] == parts@[1]@ && shown[2] == parts@[2]@);
        let y = parse_i32(parts[0].as_slice())?;
        let m = parse_u32(parts[1].as_slice())?;
        let d = parse_u32(parts[2].as_slice())?;
        let date = ymd(y, m, d)?;
        proof {
            lemma_day_ok(date);
        }
        let next = plus_days(date, 1)?;
        Some((date, next))
    } else {
        None
    }
}

/// Resolve a date keyword or an absolute date on the day `today` into the days
/// from the first up to but not with the second.
pub fn date_span(s: &str, today: Day) -> (r: Option<(Day, Day)>)
    requires
        today.valid(),
    ensures
        r is Some <==> span(s@, today) is Some,
        r matches Some(p) ==> p.0.valid() && p.1.valid() && span(s@, today) == Some(
            (p.0.number(), p.1.number()),
        ),
{
    let chars = chars_of(s);
    let trimmed = trim(chars.as_slice());
    let t = ascii_lower_chars(trimmed.as_slice());
    proof {
        lemma_day_ok(today);
    }
    if is_text(t.as_slice(), "today") {
        let next = plus_days(today, 1)?;
        return Some((today, next));
    }
    if is_text(t.as_slice(), "yesterday") {
        let before = minus_days(today, 1)?;
        return Some((before, today));
    }
    if is_text(t.as_slice(), "thisweek") {
        return this_week(today);
    }
    if is_text(t.as_slice(), "lastweek") {
        return last_week(today);
    }
    if is_text(t.as_slice(), "thismonth") {
        let first = with_day(today, 1)?;
        return month_from(first);
    }
    if is_text(t.as_slice(), "lastmonth") {
        let first = with_day(today, 1)?;
        let before = minus_months(first, 1)?;
        proof {
            lemma_month_first(first);
            lemma_month_first(before);
        }
        return Some((before, first));
    }
    if is_text(t.as_slice(), "thisyear") {
        return whole_year(today.year);
    }
    if is_text(t.as_slice(), "lastyear") {
        let before: i32 = today.year.checked_sub(1)?;
        return whole_year(before);
    }
    let parts = split_parts(&t);
    absolute_days(&parts)
}

/// The week of the day `today`, from its Monday.
fn this_week(today: Day) -> (r: Option<(Day, Day)>)
    requires
        today.valid(),
    ensures
        bounds_span(r, span_of(monday(today.number()), monday(today.number()) + 7)),
{
    let first = minus_days(today, days_from_monday(today) as u64)?;
    let next = plus_days(first, 7)?;
    Some((first, next))
}

/// The week before that of the day `today`.
fn last_week(today: Day) -> (r: Option<(Day, Day)>)
    requires
        today.valid(),
    ensures
        bounds_span(r, span_of(monday(today.number()) - 7, monday(today.number()))),
{
    let first = minus_days(today, days_from_monday(today) as u64)?;
    let before = minus_days(first, 7)?;
    Some((before, first))
}

/// How a date filter lies to the days of its date.
#[derive(Clone, Copy, PartialEq, Eq, Structural)]
pub enum DateOp {
    /// `>`: after the last day.
    After,
    /// `>=`: from the first day on.
    From,
    /// `<`: before the first day.
    Before,
    /// `<=`: up to the last day.
    Until,
    /// `=` or no operator: on the days themselves.
    On,
}

/// What a date value says.
#[verifier::ext_equal]
pub enum DateExpr {
    /// `A..B`
    Range(Seq<char>, Seq<char>),
    /// A date with an operator.
    Single(DateOp, Seq<char>),
}

/// How many characters of `s` come before its first `..` (all, when it has none).
pub open spec fn until_dots(s: Seq<char>) -> nat
    decreases s.len(),
{
    if s.len() == 0 || (s.len() >= 2 && s[0] == '.' && s[1] == '.') {
        0
    } else {
        1 + until_dots(s.drop_first())
    }
}

/// The operator that a date value starts with, and what follows it.
pub open spec fn date_op(s: Seq<char>) -> (DateOp, Seq<char>) {
    if text::has_prefix(s, ">="@) {
        (DateOp::From, s.skip(2))
    } else if text::has_prefix(s, "<="@) {
        (DateOp::Until, s.skip(2))
    } else if text::has_prefix(s, ">"@) {
        (DateOp::After, s.skip(1))
    } else if text::has_prefix(s, "<"@) {
        (DateOp::Before, s.skip(1))
    } else if text::has_prefix(s, "="@) {
        (DateOp::On, s.skip(1))
    } else {
        (DateOp::On, s)
    }
}

/// What a date value says; nothing when it is blank.
pub open spec fn date_expr(value: Seq<char>) -> Option<DateExpr> {
    let s = text::trimmed(value);
    let n = until_dots(s) as int;
    if s.len() == 0 {
        None
    } else if n < s.len() {
        Some(DateExpr::Range(s.take(n), s.skip(n + 2)))
    } else {
        Some(DateExpr::Single(date_op(s).0, date_op(s).1))
    }
}

/// Inclusive Unix-millisecond bounds from a date filter.
#[derive(Clone, Copy)]
pub struct DateFilter {
    pub min: Option<i64>,
    pub max: Option<i64>,
}

/// The bounds that an operator puts on the instants from `start` up to but not
/// with `end`.
pub open spec fn op_bounds(op: DateOp, start: int, end: int) -> (Option<int>, Option<int>) {
    match op {
        DateOp::After => (Some(end), None),
        DateOp::From => (Some(start), None),
        DateOp::Before => (None, Some(start - 1)),
        DateOp::Until => (None, Some(end - 1)),
        DateOp::On => (Some(start), Some(end - 1)),
    }
}

impl DateFilter {
    /// The bounds as integers.
    pub open spec fn bounds(self) -> (Option<int>, Option<int>) {
        (
            match self.min {
                Some(m) => Some(m as int),
                None => None,
            },
            match self.max {
                Some(m) => Some(m as int),
                None => None,
            },
        )
    }
}

/// Whether `start` and `end` are local midnights that bound the date `s` on some
/// day.
#[verifier::opaque]
pub open spec fn resolves(s: Seq<char>, start: i64, end: i64) -> bool {
    exists|today: Day|
        today.valid() && (#[trigger] span(s, today) matches Some(days) && midnight_of(days.0, start)
            && midnight_of(days.1, end))
}

/// Whether `r` is the span of the days from `first` up to but not with `next` by the
/// local clock: the instants at which the two start, and none when one of them has no
/// start.
pub open spec fn days_read(first: Day, next: Day, r: Option<(i64, i64)>) -> bool {
    match r {
        Some(p) => clock_starts_day(first, Some(p.0)) && clock_starts_day(next, Some(p.1)),
        None => clock_starts_day(first, None) || clock_starts_day(next, None),
    }
}

/// Whether the two are the days with these numbers.
pub open spec fn are_days(first: Day, next: Day, numbers: (int, int)) -> bool {
    first.valid() && next.valid() && first.number() == numbers.0 && next.number() == numbers.1
}

/// Whether `r` is what the local clock makes of the date `s` on the day `now`: none
/// when `s` is no date, and else the span of its days.
pub open spec fn read_on(s: Seq<char>, now: Day, r: Option<(i64, i64)>) -> bool {
    match span(s, now) {
        None => r is None,
        Some(numbers) => exists|first: Day, next: Day| #[trigger]
            are_days(first, next, numbers) && days_read(first, next, r),
    }
}

/// Whether `r` is what the local clock makes of the date `s`.
#[verifier::opaque]
pub open spec fn span_read(s: Seq<char>, r: Option<(i64, i64)>) -> bool {
    exists|now: Day| now.valid() && #[trigger] clock_shows_day(now) && read_on(s, now, r)
}

/// Whether `r` is the filter of a date with an operator whose date the local clock
/// makes `x` of: none when that is none.
pub open spec fn single_read(op: DateOp, x: Option<(i64, i64)>, r: Option<DateFilter>) -> bool {
    match x {
        None => r is None,
        Some(p) => r matches Some(f) && f.bounds() == op_bounds(op, p.0 as int, p.1 as int),
    }
}

/// Whether `r` is the filter of a range whose dates the local clock makes `x` and `y`
/// of: none when one of them is none.
pub open spec fn range_read(
    x: Option<(i64, i64)>,
    y: Option<(i64, i64)>,
    r: Option<DateFilter>,
) -> bool {
    match (x, y) {
        (Some(p), Some(q)) => r matches Some(f) && f.bounds() == op_bounds(
            DateOp::On,
            p.0 as int,
            q.1 as int,
        ),
        _ => r is None,
    }
}

/// Whether `r` is the filter that the local clock makes of a date value: none when the
/// value is blank or one of its dates gives none.
pub open spec fn filter_read(value: Seq<char>, r: Option<DateFilter>) -> bool {
    match date_expr(value) {
        None => r is None,
        Some(DateExpr::Single(op, s)) => exists|x: Option<(i64, i64)>| #[trigger]
            span_read(s, x) && single_read(op, x, r),
        Some(DateExpr::Range(a, b)) => exists|x: Option<(i64, i64)>, y: Option<(i64, i64)>|
            #[trigger] span_read(a, x) && #[trigger] span_read(b, y) && range_read(x, y, r),
    }
}

/// Whether a filter is what a date with an operator stands for, on some day and
/// in some time zone.
pub open spec fn single_from(op: DateOp, s: Seq<char>, f: DateFilter) -> bool {
    exists|start: i64, end: i64| #[trigger]
        resolves(s, start, end) && f.bounds() == op_bounds(op, start as int, end as int)
}

/// Whether a filter is what the range `a..b` stands for, on some day and in some
/// time zone.
pub open spec fn range_from(a: Seq<char>, b: Seq<char>, f: DateFilter) -> bool {
    exists|start: i64, x: i64, y: i64, end: i64| #[trigger]
        resolves(a, start, x) && #[trigger] resolves(b, y, end) && f.bounds() == op_bounds(
            DateOp::On,
            start as int,
            end as int,
        )
}

/// Whether a filter is what a date value stands for, on some day and in some
/// time zone.
pub open spec fn filter_from(value: Seq<char>, f: DateFilter) -> bool {
    match date_expr(value) {
        None => false,
        Some(DateExpr::Single(op, s)) => single_from(op, s, f),
        Some(DateExpr::Range(a, b)) => range_from(a, b, f),
    }
}

proof fn lemma_midnight_range(day: int, ms: i64)
    requires
        day_ok(day),
        midnight_of(day, ms),
    ensures
        -9_000_000_000_000_000 < ms < 9_000_000_000_000_000,
{
    assert(year_start(-262143) > -100_000_000);
    assert(year_start(262143) < 100_000_000);
}

/// Convert a `[first, next)` date range (end exclusive) to Unix milliseconds at local
/// midnight.
fn span_days(first: Day, next: Day) -> (r: Option<(i64, i64)>)
    requires
        first.valid(),
        next.valid(),
    ensures
        days_read(first, next, r),
        r matches Some(p) ==> midnight_of(first.number(), p.0) && midnight_of(next.number(), p.1),
{
    let start = local_midnight_ms(first)?;
    let end = local_midnight_ms(next)?;
    Some((start, end))
}

/// Resolve a date keyword or absolute date into a half-open local-time span
/// `[start, end)` in Unix milliseconds.
pub fn parse_date_span(s: &str) -> (r: Option<(i64, i64)>)
    ensures
        span_read(s@, r),
        r matches Some(p) ==> resolves(s@, p.0, p.1) && p.0 > i64::MIN && p.1 > i64::MIN,
{
    let now = today();
    proof {
        reveal(span_read);
        assert(clock_shows_day(now));
    }
    let (first, next) = date_span(s, now)?;
    let r = span_days(first, next);
    proof {
        assert(are_days(first, next, (span(s@, now))->0));
        assert(read_on(s@, now, r));
        if let Some(p) = r {
            lemma_day_ok(first);
            lemma_day_ok(next);
            lemma_midnight_range(first.number(), p.0);
            lemma_midnight_range(next.number(), p.1);
            assert(span(s@, now) == Some((first.number(), next.number())));
            reveal(resolves);
        }
    }
    r
}

/// The operator that a date value starts with, and what follows it.
pub fn split_date_op(value: &str) -> (r: (DateOp, String))
    ensures
        (r.0, r.1@) == date_op(value@),
{
    let chars = chars_of(value);
    proof {
        reveal_strlit(">=");
        reveal_strlit("<=");
        reveal_strlit(">");
        reveal_strlit("<");
        reveal_strlit("=");
    }
    let v = chars.as_slice();
    let (op, rest) = if let Some(rest) = strip_prefix(v, ">=") {
        (DateOp::From, rest)
    } else if let Some(rest) = strip_prefix(v, "<=") {
        (DateOp::Until, rest)
    } else if let Some(rest) = strip_prefix(v, ">") {
        (DateOp::After, rest)
    } else if let Some(rest) = strip_prefix(v, "<") {
        (DateOp::Before, rest)
    } else if let Some(rest) = strip_prefix(v, "=") {
        (DateOp::On, rest)
    } else {
        (DateOp::On, copy_range(v, 0, v.len()))
    };
    assert(v@.subrange(0, v@.len() as int) =~= v@);
    (op, text::string_of(rest.as_slice()))
}

/// The bounds that an operator puts on the instants from `start` up to but not
/// with `end`.
pub fn date_bounds(op: DateOp, start: i64, end: i64) -> (r: DateFilter)
    requires
        start > i64::MIN,
        end > i64::MIN,
    ensures
        r.bounds() == op_bounds(op, start as int, end as int),
{
    match op {
        DateOp::After => DateFilter { min: Some(end), max: None },
        DateOp::From => DateFilter { min: Some(start), max: None },
        DateOp::Before => DateFilter { min: None, max: Some(start - 1) },
        DateOp::Until => DateFilter { min: None, max: Some(end - 1) },
        DateOp::On => DateFilter { min: Some(start), max: Some(end - 1) },
    }
}

/// The characters of `s` that come before its first `..`.
fn count_until_dots(s: &Vec<char>) -> (r: usize)
    ensures
        r == until_dots(s@),
        r < s@.len() ==> r + 2 <= s@.len(),
        r <= s@.len(),
{
    let mut i: usize = 0;
    assert(s@.skip(0) =~= s@);
    while i < s.len() && !(s.len() - i >= 2 && s[i] == '.' && s[i + 1] == '.')
        invariant
            i <= s@.len(),
            until_dots(s@) == i + until_dots(s@.skip(i as int)),
        decreases s@.len() - i,
    {
        assert(s@.skip(i as int).drop_first() =~= s@.skip(i + 1));
        i += 1;
    }
    i
}

/// What a date value says, with the dates as texts.
pub enum DateValue {
    /// `A..B`
    Range(String, String),
    /// A date with an operator.
    Single(DateOp, String),
}

impl View for DateValue {
    type V = DateExpr;

    open spec fn view(&self) -> DateExpr {
        match self {
            DateValue::Range(a, b) => DateExpr::Range(a@, b@),
            DateValue::Single(op, s) => DateExpr::Single(*op, s@),
        }
    }
}

/// Take a date value apart; nothing when it is blank.
pub fn parse_date_expr(value: &str) -> (r: Option<DateValue>)
    ensures
        r is Some <==> date_expr(value@) is Some,
        r matches Some(e) ==> Some(e@) == date_expr(value@),
{
    let chars = chars_of(value);
    let s = trim(chars.as_slice());
    if s.len() == 0 {
        return None;
    }
    let n: usize = count_until_dots(&s);
    if n < s.len() {
        let left = copy_range(s.as_slice(), 0, n);
        let right = copy_range(s.as_slice(), n + 2, s.len());
        assert(left@ =~= s@.take(n as int));
        assert(right@ =~= s@.skip(n + 2));
        let a = text::string_of(left.as_slice());
        let b = text::string_of(right.as_slice());
        return Some(DateValue::Range(a, b));
    }
    let whole = text::string_of(s.as_slice());
    let (op, rest) = split_date_op(whole.as_str());
    Some(DateValue::Single(op, rest))
}

/// The filter of a date value whose first and second date have resolved to the
/// half-open spans `first` and `second`. A single date has no second.
pub fn date_filter(
    value: &DateValue,
    first: Option<(i64, i64)>,
    second: Option<(i64, i64)>,
) -> (r: Option<DateFilter>)
    requires
        first matches Some(p) ==> p.0 > i64::MIN && p.1 > i64::MIN,
        second matches Some(p) ==> p.1 > i64::MIN,
    ensures
        r is Some <==> first is Some && (value is Range ==> second is Some),
        r matches Some(f) ==> f.bounds() == match value {
            DateValue::Range(_, _) => op_bounds(
                DateOp::On,
                (first->0).0 as int,
                (second->0).1 as int,
            ),
            DateValue::Single(op, _) => op_bounds(*op, (first->0).0 as int, (first->0).1 as int),
        },
{
    let (start, end) = first?;
    match value {
        DateValue::Range(_, _) => {
            let (_, last) = second?;
            Some(date_bounds(DateOp::On, start, last))
        },
        DateValue::Single(op, _) => Some(date_bounds(*op, start, end)),
    }
}

/// Parse a `dm:`/`dc:`/`da:` value into inclusive millisecond bounds. Accepts a
/// keyword (`today`, `yesterday`, `thisweek`/`lastweek`, `thismonth`/
/// `lastmonth`, `thisyear`/`lastyear`), an absolute `YYYY`, `YYYY-MM` or
/// `YYYY-MM-DD` (`/` also allowed), each optionally prefixed by `>`/`>=`/`<`/
/// `<=`/`=`, or an inclusive `A..B` range. Which instants they are depends on the
/// local day and time zone.
pub fn parse_date_filter(value: &str) -> (r: Option<DateFilter>)
    ensures
        filter_read(value@, r),
        r matches Some(f) ==> filter_from(value@, f),
{
    let expr = parse_date_expr(value)?;
    let (first, second) = match &expr {
        DateValue::Range(a, b) => (parse_date_span(a.as_str()), parse_date_span(b.as_str())),
        DateValue::Single(_, s) => (parse_date_span(s.as_str()), None),
    };
    proof {
        match expr@ {
            DateExpr::Range(a, b) => {
                assert(span_read(a, first) && span_read(b, second));
            },
            DateExpr::Single(_, s) => {
                assert(span_read(s, first));
            },
        }
    }
    let f = date_filter(&expr, first, second)?;
    proof {
        match expr@ {
            DateExpr::Range(a, b) => {
                assert(range_from(a, b, f)) by {
                    assert(resolves(a, (first->0).0, (first->0).1));
                    assert(resolves(b, (second->0).0, (second->0).1));
                }
            },
            DateExpr::Single(op, s) => {
                assert(single_from(op, s, f)) by {
                    assert(resolves(s, (first->0).0, (first->0).1));
                }
            },
        }
    }
    Some(f)
}

/// Whether an instant lies within the bounds. An unknown one never does.
pub open spec fn in_date(value: Option<i64>, filter: DateFilter) -> bool {
    match value {
        None => false,
        Some(ms) => {
            &&& filter.min matches Some(m) ==> m <= ms
            &&& filter.max matches Some(m) ==> ms <= m
        },
    }
}

/// Whether an instant lies within the bounds. An unknown one never does.
pub fn date_within(value: Option<i64>, filter: &DateFilter) -> (r: bool)
    ensures
        r == in_date(value, *filter),
{
    match value {
        None => false,
        Some(ms) => {
            if let Some(m) = filter.min {
                if ms < m {
                    return false;
                }
            }
            if let Some(m) = filter.max {
                if ms > m {
                    return false;
                }
            }
            true
        },
    }
}

/// `>x` accepts exactly the known instants that `<=x` does not, and `<x` exactly
/// those that `>=x` does not.
pub proof fn law_date_complement(
    start: int,
    end: int,
    after: DateFilter,
    until: DateFilter,
    before: DateFilter,
    from: DateFilter,
    ms: i64,
)
    requires
        after.bounds() == op_bounds(DateOp::After, start, end),
        until.bounds() == op_bounds(DateOp::Until, start, end),
        before.bounds() == op_bounds(DateOp::Before, start, end),
        from.bounds() == op_bounds(DateOp::From, start, end),
    ensures
        in_date(Some(ms), after) == !in_date(Some(ms), until),
        in_date(Some(ms), before) == !in_date(Some(ms), from),
{
}

/// A date value accepts exactly the known instants that both its `>=` and its
/// `<=` form accept.
pub proof fn law_date_on(
    start: int,
    end: int,
    on: DateFilter,
    from: DateFilter,
    until: DateFilter,
    value: Option<i64>,
)
    requires
        on.bounds() == op_bounds(DateOp::On, start, end),
        from.bounds() == op_bounds(DateOp::From, start, end),
        until.bounds() == op_bounds(DateOp::Until, start, end),
    ensures
        in_date(value, on) == (in_date(value, from) && in_date(value, until)),
{
}

/// An absolute date means the same days whatever the current day is.
pub proof fn law_absolute_date(s: Seq<char>, a: Day, b: Day)
    requires
        text::ascii_lowered(text::trimmed(s)) == s,
        s.len() > 0,
        text::is_digit(s[0]) || s[0] == '+' || s[0] == '-',
    ensures
        span(s, a) == span(s, b),
{
    reveal_strlit("today");
    reveal_strlit("yesterday");
    reveal_strlit("thisweek");
    reveal_strlit("lastweek");
    reveal_strlit("thismonth");
    reveal_strlit("lastmonth");
    reveal_strlit("thisyear");
    reveal_strlit("lastyear");
}

/// The time zone moves the edges of a date by less than a day: a filter on a date
/// takes every instant that lies a day or more within its UTC days, and none that
/// lies a day or more outside them.
pub proof fn law_date_margin(s: Seq<char>, start: i64, end: i64, on: DateFilter, ms: i64)
    requires
        resolves(s, start, end),
        on.bounds() == op_bounds(DateOp::On, start as int, end as int),
    ensures
        exists|today: Day|
            today.valid() && (#[trigger] span(s, today) matches Some(days) && {
                let a = (days.0 - 719_163) * 86_400_000;
                let b = (days.1 - 719_163) * 86_400_000;
                &&& a + 86_400_000 <= ms < b - 86_400_000 ==> in_date(Some(ms), on)
                &&& in_date(Some(ms), on) ==> a - 86_400_000 < ms < b + 86_400_000
            }),
{
    reveal(resolves);
    let today = choose|today: Day|
        today.valid() && (#[trigger] span(s, today) matches Some(days) && midnight_of(days.0, start)
            && midnight_of(days.1, end));
    let days = span(s, today)->0;
    assert(midnight_of(days.0, start) && midnight_of(days.1, end));
}

} // verus!
