//! Laws of the days that dates stand for.

use crate::date_laws;
use crate::dates;
use crate::dates::{DateFilter, DateOp, Day};
use crate::text;
use vstd::prelude::*;

verus! {

/// Whether a day comes before another by year, month and day of month.
pub open spec fn earlier(a: Day, b: Day) -> bool {
    a.year < b.year || (a.year == b.year && (a.month < b.month || (a.month == b.month && a.day
        < b.day)))
}

/// Days are numbered in their order.
pub proof fn law_day_order(a: Day, b: Day)
    requires
        a.valid(),
        b.valid(),
    ensures
        a.number() < b.number() <==> earlier(a, b),
        a.number() == b.number() <==> a == b,
{
    if earlier(a, b) {
        lemma_order(a, b);
    } else if earlier(b, a) {
        lemma_order(b, a);
    }
}

proof fn lemma_order(a: Day, b: Day)
    requires
        a.valid(),
        b.valid(),
        earlier(a, b),
    ensures
        a.number() < b.number(),
{
    if a.year < b.year {
        date_laws::lemma_earlier_year(a, b);
    } else if a.month < b.month {
        date_laws::lemma_months_up(a.year as int, a.month as int, b.month as int);
    }
}

/// Whether a day is among those of a span.
pub open spec fn among(d: Day, days: Option<(int, int)>) -> bool {
    days matches Some(s) && s.0 <= d.number() < s.1
}

/// The number of the week of a day, where weeks start on Mondays, as 1 January 2024 was
/// one.
pub open spec fn week(d: Day) -> int {
    (d.number() - Day { year: 2024, month: 1, day: 1 }.number()) / 7
}

proof fn lemma_among_month(d: Day, month: int)
    requires
        d.valid(),
        dates::month_span(month) is Some,
    ensures
        among(d, dates::month_span(month)) <==> d.year * 12 + d.month - 1 == month,
{
    let k = d.month_index();
    date_laws::lemma_month_runs(k);
    assert(k / 12 == d.year && k % 12 + 1 == d.month);
    lemma_within_month(d);
    if k < month {
        lemma_months(k + 1, month);
    } else if k > month {
        lemma_months(month + 1, k);
    }
}

proof fn lemma_within_month(d: Day)
    requires
        d.valid(),
    ensures
        dates::month_start(d.month_index()) <= d.number() < dates::month_start(d.month_index() + 1),
{
    let k = d.month_index();
    let y = d.year as int;
    assert(k / 12 == d.year && k % 12 + 1 == d.month);
    dates::lemma_days_before_month(y, d.month as int);
    if d.month < 12 {
        assert((k + 1) / 12 == d.year && (k + 1) % 12 + 1 == d.month + 1);
    } else {
        assert((k + 1) / 12 == d.year + 1 && (k + 1) % 12 + 1 == 1);
        assert(dates::days_before_month(y + 1, 1) == 0);
    }
}

proof fn lemma_months(a: int, b: int)
    requires
        a <= b,
    ensures
        dates::month_start(a) <= dates::month_start(b),
    decreases b - a,
{
    if a < b {
        date_laws::lemma_month_runs(b - 1);
        lemma_months(a, b - 1);
    }
}

proof fn lemma_among_year(d: Day, y: int)
    requires
        d.valid(),
        dates::year_span(y) is Some,
    ensures
        among(d, dates::year_span(y)) <==> d.year == y,
{
    dates::lemma_days_before_month(d.year as int, d.month as int);
    if d.year < y {
        dates::lemma_year_start_monotonic(d.year + 1, y);
    } else if d.year > y {
        dates::lemma_year_start_monotonic(y + 1, d.year as int);
    }
}

#[verifier::rlimit(40)]
proof fn lemma_reached(today: Day)
    requires
        today.valid(),
        -262_142 <= today.year <= 262_141,
    ensures
        dates::year_start(-262_143) <= today.number() - 13,
        today.number() + 8 < dates::year_start(262_143),
{
    let y = today.year as int;
    dates::lemma_days_before_month(y, today.month as int);
    dates::lemma_year_length(y - 1);
    dates::lemma_year_length(y + 1);
    dates::lemma_year_start_monotonic(-262_143, y - 1);
    dates::lemma_year_start_monotonic(y + 2, 262_143);
}

/// The keywords of weeks stand for the days of the week of today and of the week before.
#[verifier::spinoff_prover]
#[verifier::rlimit(40)]
pub proof fn law_week_days(today: Day, d: Day)
    requires
        today.valid(),
        d.valid(),
        -262_142 <= today.year <= 262_141,
    ensures
        among(d, dates::span("thisweek"@, today)) <==> week(d) == week(today),
        among(d, dates::span("lastweek"@, today)) <==> week(d) == week(today) - 1,
{
    lemma_known_monday();
    lemma_week_spans(today);
    lemma_same_week(today.number(), d.number());
}

proof fn lemma_known_monday()
    ensures
        (Day { year: 2024, month: 1, day: 1 }).number() == 738_886,
{
    assert(dates::days_before_month(2024, 1) == 0);
}

proof fn lemma_week_spans(today: Day)
    requires
        today.valid(),
        -262_142 <= today.year <= 262_141,
    ensures
        ({
            let m = dates::monday(today.number());
            &&& dates::span("thisweek"@, today) == Some((m, m + 7))
            &&& dates::span("lastweek"@, today) == Some((m - 7, m))
        }),
{
    date_laws::lemma_keyword_spans(today);
    lemma_reached(today);
}

/// The days that the other keywords stand for: today and the day before it, and the days of
/// its month and of the month before, of its year and of the year before.
#[verifier::rlimit(40)]
pub proof fn law_keyword_days(today: Day, d: Day)
    requires
        today.valid(),
        d.valid(),
        -262_142 <= today.year <= 262_141,
    ensures
        among(d, dates::span("today"@, today)) <==> d == today,
        among(d, dates::span("yesterday"@, today)) <==> d.number() + 1 == today.number(),
        among(d, dates::span("thismonth"@, today)) <==> d.year == today.year && d.month
            == today.month,
        among(d, dates::span("lastmonth"@, today)) <==> d.year * 12 + d.month == today.year * 12
            + today.month - 1,
        among(d, dates::span("thisyear"@, today)) <==> d.year == today.year,
        among(d, dates::span("lastyear"@, today)) <==> d.year == today.year - 1,
{
    date_laws::lemma_keyword_spans(today);
    lemma_reached(today);
    law_day_order(d, today);
    let m = today.month_index();
    assert(m / 12 == today.year);
    lemma_among_month(d, m);
    lemma_among_month(d, m - 1);
    lemma_among_year(d, today.year as int);
    lemma_among_year(d, today.year - 1);
}

proof fn lemma_week(n: int)
    ensures
        (n - 738_886) / 7 * 7 + 738_886 == dates::monday(n),
{
}

#[verifier::rlimit(40)]
proof fn lemma_same_week(n: int, k: int)
    ensures
        dates::monday(n) <= k < dates::monday(n) + 7 <==> (k - 738_886) / 7 == (n - 738_886) / 7,
        dates::monday(n) - 7 <= k < dates::monday(n) <==> (k - 738_886) / 7 == (n - 738_886) / 7
            - 1,
{
    lemma_week(n);
    let p = (n - 738_886) / 7;
    let q = (k - 738_886) / 7;
    assert(q * 7 + 738_886 <= k < q * 7 + 738_893);
}

proof fn lemma_two_parts(y: Seq<char>, m: Seq<char>, today: Day)
    requires
        text::is_numeral(y),
        text::is_numeral(m),
    ensures
        dates::span(y + seq!['-'] + m, today) == dates::absolute_span(seq![y, m]),
{
    let none = Seq::<char>::empty();
    let dash = seq!['-'];
    let s = y + dash + m;
    assert forall|w: Seq<char>| #[trigger] text::is_numeral(w) implies forall|i: int|
        0 <= i < w.len() ==> !date_laws::is_parting(#[trigger] w[i]) by {
        assert forall|i: int| 0 <= i < w.len() implies !date_laws::is_parting(#[trigger] w[i]) by {
            assert(text::is_digit(w[i]));
        }
    }
    assert(s[0] == y[0] && text::is_digit(y[0]));
    assert(s[s.len() - 1] == m[m.len() - 1] && text::is_digit(m[m.len() - 1]));
    assert forall|i: int| 0 <= i < s.len() implies text::is_digit(#[trigger] s[i]) || s[i]
        == '-' by {
        let a = y.len() as int;
        if i < a {
            assert(s[i] == y[i]);
        } else if a < i {
            assert(s[i] == m[i - a - 1]);
        }
    }
    date_laws::lemma_unchanged(s);
    assert(s =~= y + (dash + m));
    date_laws::lemma_part_on(y, dash + m, none);
    assert(none + y =~= y);
    assert((dash + m).drop_first() =~= m);
    date_laws::lemma_part_on(m, none, none);
    assert(none + m =~= m && m + none =~= m);
    assert(dates::parts_from(s, none) =~= seq![y, m]);
    date_laws::lemma_no_keyword(s);
}

/// A year in digits stands for its days.
#[verifier::rlimit(40)]
pub proof fn law_year_days(y: Seq<char>, today: Day, d: Day)
    requires
        text::is_numeral(y) && text::digits_value(y) < 262_142,
        d.valid(),
    ensures
        among(d, dates::span(y, today)) <==> d.year == text::digits_value(y),
{
    let a = text::digits_value(y) as int;
    date_laws::lemma_absolute(y, y, y, today);
    assert(text::is_digit(y[0]));
    assert(seq![y][0] == y);
    assert(dates::span(y, today) == dates::year_span(a));
    lemma_among_year(d, a);
}

proof fn lemma_month_span_of(y: Seq<char>, m: Seq<char>, today: Day)
    requires
        text::is_numeral(y) && text::digits_value(y) < 262_142,
        text::is_numeral(m) && text::digits_value(m) <= u32::MAX,
    ensures
        ({
            let (a, b) = (text::digits_value(y) as int, text::digits_value(m) as int);
            dates::span(y + seq!['-'] + m, today) == if 1 <= b <= 12 {
                dates::month_span(a * 12 + b - 1)
            } else {
                None
            }
        }),
{
    lemma_two_parts(y, m, today);
    assert(text::is_digit(y[0]) && text::is_digit(m[0]));
    let parts = seq![y, m];
    assert(parts[0] == y && parts[1] == m);
}

/// A year and a month in digits stand for the days of that month, and for none where the
/// year has no such month.
#[verifier::rlimit(40)]
pub proof fn law_month_days(y: Seq<char>, m: Seq<char>, today: Day, d: Day)
    requires
        text::is_numeral(y) && text::digits_value(y) < 262_142,
        text::is_numeral(m) && text::digits_value(m) <= u32::MAX,
        d.valid(),
    ensures
        among(d, dates::span(y + seq!['-'] + m, today)) <==> d.year == text::digits_value(y)
            && d.month == text::digits_value(m),
        !(1 <= text::digits_value(m) <= 12) ==> dates::span(y + seq!['-'] + m, today) is None,
{
    let (a, b) = (text::digits_value(y) as int, text::digits_value(m) as int);
    lemma_month_span_of(y, m, today);
    if 1 <= b <= 12 {
        let k = a * 12 + b - 1;
        assert(k / 12 == a);
        assert((k + 1) / 12 <= a + 1);
        lemma_among_month(d, k);
    }
}

#[verifier::rlimit(40)]
proof fn lemma_day_span_of(y: Seq<char>, m: Seq<char>, n: Seq<char>, today: Day)
    requires
        text::is_numeral(y) && text::digits_value(y) < 262_142,
        text::is_numeral(m) && text::digits_value(m) <= u32::MAX,
        text::is_numeral(n) && text::digits_value(n) <= u32::MAX,
    ensures
        ({
            let (a, b, c) = (
                text::digits_value(y) as int,
                text::digits_value(m) as int,
                text::digits_value(n) as int,
            );
            let e = Day { year: a as i32, month: b as u32, day: c as u32 };
            dates::span(y + seq!['-'] + m + seq!['-'] + n, today) == if dates::ymd_ok(a, b, c) {
                dates::span_of(e.number(), e.number() + 1)
            } else {
                None
            }
        }),
{
    date_laws::lemma_absolute(y, m, n, today);
    assert(text::is_digit(y[0]) && text::is_digit(m[0]) && text::is_digit(n[0]));
    let parts = seq![y, m, n];
    assert(parts[0] == y && parts[1] == m && parts[2] == n);
}

/// A date in digits stands for the day with its year, its month and its day of month, and
/// for none where the calendar has no such day.
#[verifier::rlimit(40)]
pub proof fn law_date_days(y: Seq<char>, m: Seq<char>, n: Seq<char>, today: Day, d: Day)
    requires
        text::is_numeral(y) && text::digits_value(y) < 262_142,
        text::is_numeral(m) && text::digits_value(m) <= u32::MAX,
        text::is_numeral(n) && text::digits_value(n) <= u32::MAX,
        d.valid(),
    ensures
        among(d, dates::span(y + seq!['-'] + m + seq!['-'] + n, today)) <==> d.year
            == text::digits_value(y) && d.month == text::digits_value(m) && d.day
            == text::digits_value(n),
        !dates::ymd_ok(
            text::digits_value(y) as int,
            text::digits_value(m) as int,
            text::digits_value(n) as int,
        ) ==> dates::span(y + seq!['-'] + m + seq!['-'] + n, today) is None,
{
    let (a, b, c) = (
        text::digits_value(y) as int,
        text::digits_value(m) as int,
        text::digits_value(n) as int,
    );
    lemma_day_span_of(y, m, n, today);
    if dates::ymd_ok(a, b, c) {
        let e = Day { year: a as i32, month: b as u32, day: c as u32 };
        law_day_order(d, e);
        lemma_plain_day(e);
    }
}

proof fn lemma_plain_day(e: Day)
    requires
        e.valid(),
        0 <= e.year < 262_142,
    ensures
        dates::span_of(e.number(), e.number() + 1) is Some,
{
    lemma_reached(e);
}

/// The instants that a filter with an operator takes, of a date that starts at `start` and
/// ends before `end`; an unknown one never.
pub proof fn law_operator_takes(op: DateOp, start: i64, end: i64, f: DateFilter, ms: i64)
    requires
        dates::single_read(op, Some((start, end)), Some(f)),
    ensures
        !dates::in_date(None, f),
        op is After ==> (dates::in_date(Some(ms), f) <==> end <= ms),
        op is From ==> (dates::in_date(Some(ms), f) <==> start <= ms),
        op is Before ==> (dates::in_date(Some(ms), f) <==> ms < start),
        op is Until ==> (dates::in_date(Some(ms), f) <==> ms < end),
        op is On ==> (dates::in_date(Some(ms), f) <==> start <= ms < end),
{
}

/// A range takes the instants from the start of its first date to the end of its last.
pub proof fn law_range_takes(x: (i64, i64), y: (i64, i64), f: DateFilter, ms: i64)
    requires
        dates::range_read(Some(x), Some(y), Some(f)),
    ensures
        !dates::in_date(None, f),
        dates::in_date(Some(ms), f) <==> x.0 <= ms < y.1,
{
}

/// Whether two texts differ at most in the letter case of ASCII letters.
pub open spec fn differ_in_case(s: Seq<char>, t: Seq<char>) -> bool {
    &&& s.len() == t.len()
    &&& forall|i: int|
        0 <= i < s.len() ==> (#[trigger] s[i]) == t[i] || ('A' <= s[i] <= 'Z' && t[i] as u32 == s[i]
            as u32 + 32) || ('A' <= t[i] <= 'Z' && s[i] as u32 == t[i] as u32 + 32)
}

/// A date means the same in any letter case, and with white space around it.
pub proof fn law_date_case(s: Seq<char>, t: Seq<char>, today: Day)
    requires
        differ_in_case(text::trimmed(s), text::trimmed(t)),
    ensures
        dates::span(s, today) == dates::span(t, today),
{
    let (a, b) = (text::trimmed(s), text::trimmed(t));
    let (x, y) = (text::ascii_lowered(a), text::ascii_lowered(b));
    assert forall|i: int| 0 <= i < a.len() implies x[i] == y[i] by {
        assert(a[i] == b[i] || ('A' <= a[i] <= 'Z' && b[i] as u32 == a[i] as u32 + 32) || ('A'
            <= b[i] <= 'Z' && a[i] as u32 == b[i] as u32 + 32));
        assert(x[i] == text::ascii_lower(a[i]) && y[i] == text::ascii_lower(b[i]));
    }
    assert(x =~= y);
}

} // verus!
