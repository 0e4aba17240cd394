//! Laws of dates: how the spans of dates lie to each other, over days and by the local
//! clock.

use crate::dates;
use crate::dates::{DateFilter, DateOp, Day};
use crate::text;
use vstd::prelude::*;

verus! {

pub(crate) proof fn lemma_months_up(y: int, m: int, k: int)
    requires
        1 <= m < k,
    ensures
        dates::days_before_month(y, m) + dates::month_days(y, m) <= dates::days_before_month(y, k),
    decreases k - m,
{
    if m + 1 < k {
        lemma_months_up(y, m, k - 1);
    }
}

/// No two days of the calendar have the same number.
proof fn lemma_number(a: Day, b: Day)
    requires
        a.valid(),
        b.valid(),
        a.number() == b.number(),
    ensures
        a == b,
{
    if a.year < b.year {
        lemma_earlier_year(a, b);
    } else if b.year < a.year {
        lemma_earlier_year(b, a);
    } else if a.month < b.month {
        lemma_months_up(a.year as int, a.month as int, b.month as int);
    } else if b.month < a.month {
        lemma_months_up(a.year as int, b.month as int, a.month as int);
    }
}

pub(crate) proof fn lemma_earlier_year(a: Day, b: Day)
    requires
        a.valid(),
        b.valid(),
        a.year < b.year,
    ensures
        a.number() < b.number(),
{
    dates::lemma_days_before_month(a.year as int, a.month as int);
    dates::lemma_days_before_month(b.year as int, b.month as int);
    dates::lemma_year_start_monotonic(a.year + 1, b.year as int);
}

pub(crate) proof fn lemma_month_runs(month: int)
    ensures
        dates::month_start(month) < dates::month_start(month + 1),
{
    let (y, m) = (month / 12, month % 12 + 1);
    dates::lemma_days_before_month(y, m);
    if m < 12 {
        assert((month + 1) / 12 == y);
        assert((month + 1) % 12 + 1 == m + 1);
    } else {
        assert((month + 1) / 12 == y + 1);
        assert((month + 1) % 12 + 1 == 1);
        assert(dates::days_before_month(y + 1, 1) == 0);
    }
}

/// The days of a date run forward: a date stands for at least one day.
pub proof fn law_span_runs(s: Seq<char>, today: Day)
    ensures
        dates::span(s, today) matches Some(days) ==> days.0 < days.1,
{
    let t = text::ascii_lowered(text::trimmed(s));
    let parts = dates::parts_from(t, Seq::empty());
    let m = today.month_index();
    lemma_month_runs(m);
    lemma_month_runs(m - 1);
    dates::lemma_year_length(today.year as int);
    dates::lemma_year_length(today.year - 1);
    if parts.len() == 1 {
        if let Some(y) = text::i32_value(parts[0]) {
            dates::lemma_year_length(y);
        }
    } else if parts.len() == 2 {
        match (text::i32_value(parts[0]), text::u32_value(parts[1])) {
            (Some(y), Some(k)) => {
                lemma_month_runs(y * 12 + k - 1);
            },
            _ => {},
        }
    }
}

/// Whether the local clock starts each day at one instant, or has no start of it,
/// whenever it is asked.
pub open spec fn clock_steady() -> bool {
    forall|d: Day, a: Option<i64>, b: Option<i64>| #[trigger]
        dates::clock_starts_day(d, a) && #[trigger] dates::clock_starts_day(d, b) ==> a == b
}

/// Whether the local clock starts a later day at a later instant. (A zone that moves
/// its clock back by more than a day does not.)
pub open spec fn clock_runs() -> bool {
    forall|d: Day, e: Day, a: i64, b: i64| #[trigger]
        dates::clock_starts_day(d, Some(a)) && #[trigger] dates::clock_starts_day(e, Some(b))
            && d.number() < e.number() ==> a < b
}

/// Whether the two are keywords for neighbouring spans, the earlier one first.
pub open spec fn neighbours(earlier: Seq<char>, later: Seq<char>) -> bool {
    ||| earlier == "yesterday"@ && later == "today"@
    ||| earlier == "lastweek"@ && later == "thisweek"@
    ||| earlier == "lastmonth"@ && later == "thismonth"@
    ||| earlier == "lastyear"@ && later == "thisyear"@
}

proof fn lemma_keyword(k: Seq<char>)
    requires
        k.len() > 0,
        forall|i: int| 0 <= i < k.len() ==> 'a' <= #[trigger] k[i] <= 'z',
    ensures
        text::ascii_lowered(text::trimmed(k)) == k,
{
    assert('a' <= k[0] <= 'z');
    assert('a' <= k[k.len() - 1] <= 'z');
    assert(text::trimmed(k) == k);
    assert(text::ascii_lowered(k) =~= k) by {
        assert forall|i: int| 0 <= i < k.len() implies text::ascii_lower(#[trigger] k[i])
            == k[i] by {}
    }
}

/// The keywords are as they stand.
proof fn lemma_keywords_stand()
    ensures
        text::ascii_lowered(text::trimmed("today"@)) == "today"@,
        text::ascii_lowered(text::trimmed("yesterday"@)) == "yesterday"@,
        text::ascii_lowered(text::trimmed("thisweek"@)) == "thisweek"@,
        text::ascii_lowered(text::trimmed("lastweek"@)) == "lastweek"@,
        text::ascii_lowered(text::trimmed("thismonth"@)) == "thismonth"@,
        text::ascii_lowered(text::trimmed("lastmonth"@)) == "lastmonth"@,
        text::ascii_lowered(text::trimmed("thisyear"@)) == "thisyear"@,
        text::ascii_lowered(text::trimmed("lastyear"@)) == "lastyear"@,
{
    assert(text::ascii_lowered(text::trimmed("today"@)) == "today"@) by {
        reveal_strlit("today");
        lemma_keyword("today"@);
    }
    assert(text::ascii_lowered(text::trimmed("yesterday"@)) == "yesterday"@) by {
        reveal_strlit("yesterday");
        lemma_keyword("yesterday"@);
    }
    assert(text::ascii_lowered(text::trimmed("thisweek"@)) == "thisweek"@) by {
        reveal_strlit("thisweek");
        lemma_keyword("thisweek"@);
    }
    assert(text::ascii_lowered(text::trimmed("lastweek"@)) == "lastweek"@) by {
        reveal_strlit("lastweek");
        lemma_keyword("lastweek"@);
    }
    assert(text::ascii_lowered(text::trimmed("thismonth"@)) == "thismonth"@) by {
        reveal_strlit("thismonth");
        lemma_keyword("thismonth"@);
    }
    assert(text::ascii_lowered(text::trimmed("lastmonth"@)) == "lastmonth"@) by {
        reveal_strlit("lastmonth");
        lemma_keyword("lastmonth"@);
    }
    assert(text::ascii_lowered(text::trimmed("thisyear"@)) == "thisyear"@) by {
        reveal_strlit("thisyear");
        lemma_keyword("thisyear"@);
    }
    assert(text::ascii_lowered(text::trimmed("lastyear"@)) == "lastyear"@) by {
        reveal_strlit("lastyear");
        lemma_keyword("lastyear"@);
    }
}

/// No two keywords are the same.
proof fn lemma_keywords_differ()
    ensures
        "today"@ != "yesterday"@,
        "today"@ != "thisweek"@,
        "today"@ != "lastweek"@,
        "today"@ != "thismonth"@,
        "today"@ != "lastmonth"@,
        "today"@ != "thisyear"@,
        "today"@ != "lastyear"@,
        "yesterday"@ != "thisweek"@,
        "yesterday"@ != "lastweek"@,
        "yesterday"@ != "thismonth"@,
        "yesterday"@ != "lastmonth"@,
        "yesterday"@ != "thisyear"@,
        "yesterday"@ != "lastyear"@,
        "thisweek"@ != "lastweek"@,
        "thisweek"@ != "thismonth"@,
        "thisweek"@ != "lastmonth"@,
        "thisweek"@ != "thisyear"@,
        "thisweek"@ != "lastyear"@,
        "lastweek"@ != "thismonth"@,
        "lastweek"@ != "lastmonth"@,
        "lastweek"@ != "thisyear"@,
        "lastweek"@ != "lastyear"@,
        "thismonth"@ != "lastmonth"@,
        "thismonth"@ != "thisyear"@,
        "thismonth"@ != "lastyear"@,
        "lastmonth"@ != "thisyear"@,
        "lastmonth"@ != "lastyear"@,
        "thisyear"@ != "lastyear"@,
{
    reveal_strlit("today");
    reveal_strlit("yesterday");
    reveal_strlit("thisweek");
    reveal_strlit("lastweek");
    reveal_strlit("thismonth");
    reveal_strlit("lastmonth");
    reveal_strlit("thisyear");
    reveal_strlit("lastyear");
    assert("today"@.len() == 5);
    assert("yesterday"@.len() == 9);
    assert("thisweek"@.len() == 8);
    assert("lastweek"@.len() == 8);
    assert("thismonth"@.len() == 9);
    assert("lastmonth"@.len() == 9);
    assert("thisyear"@.len() == 8);
    assert("lastyear"@.len() == 8);
    assert("yesterday"@[0] != "thismonth"@[0]);
    assert("yesterday"@[0] != "lastmonth"@[0]);
    assert("thisweek"@[0] != "lastweek"@[0]);
    assert("thisweek"@[4] != "thisyear"@[4]);
    assert("thisweek"@[0] != "lastyear"@[0]);
    assert("lastweek"@[0] != "thisyear"@[0]);
    assert("lastweek"@[4] != "lastyear"@[4]);
    assert("thismonth"@[0] != "lastmonth"@[0]);
    assert("thisyear"@[0] != "lastyear"@[0]);
}

pub(crate) proof fn lemma_keyword_spans(today: Day)
    ensures
        ({
            let n = today.number();
            let m = today.month_index();
            let y = today.year as int;
            &&& dates::span("today"@, today) == dates::span_of(n, n + 1)
            &&& dates::span("yesterday"@, today) == dates::span_of(n - 1, n)
            &&& dates::span("thisweek"@, today) == dates::span_of(
                dates::monday(n),
                dates::monday(n) + 7,
            )
            &&& dates::span("lastweek"@, today) == dates::span_of(
                dates::monday(n) - 7,
                dates::monday(n),
            )
            &&& dates::span("thismonth"@, today) == dates::month_span(m)
            &&& dates::span("lastmonth"@, today) == dates::month_span(m - 1)
            &&& dates::span("thisyear"@, today) == dates::year_span(y)
            &&& dates::span("lastyear"@, today) == dates::year_span(y - 1)
        }),
{
    lemma_keywords_stand();
    lemma_keywords_differ();
}

/// On one day the spans of neighbouring keywords meet: the earlier one ends with the
/// day that the later one starts with.
pub proof fn law_neighbours_meet(earlier: Seq<char>, later: Seq<char>, today: Day)
    requires
        neighbours(earlier, later),
        dates::span(earlier, today) is Some,
        dates::span(later, today) is Some,
    ensures
        (dates::span(earlier, today)->0).1 == (dates::span(later, today)->0).0,
{
    lemma_keyword_spans(today);
}

/// Under a steady clock spans that meet in a day meet in an instant: so do those of
/// neighbouring keywords on one day.
pub proof fn law_instants_meet(
    earlier: Seq<char>,
    later: Seq<char>,
    today: Day,
    p: (i64, i64),
    q: (i64, i64),
)
    requires
        clock_steady(),
        dates::read_on(earlier, today, Some(p)),
        dates::read_on(later, today, Some(q)),
        neighbours(earlier, later) || (dates::span(earlier, today)->0).1 == (dates::span(
            later,
            today,
        )->0).0,
    ensures
        p.1 == q.0,
{
    if neighbours(earlier, later) {
        law_neighbours_meet(earlier, later, today);
    }
    let x = dates::span(earlier, today)->0;
    let y = dates::span(later, today)->0;
    let (a, b) = choose|first: Day, next: Day| #[trigger]
        dates::are_days(first, next, x) && dates::days_read(first, next, Some(p));
    let (c, d) = choose|first: Day, next: Day| #[trigger]
        dates::are_days(first, next, y) && dates::days_read(first, next, Some(q));
    assert(dates::are_days(a, b, x) && dates::are_days(c, d, y));
    lemma_number(b, c);
    assert(dates::clock_starts_day(b, Some(p.1)) && dates::clock_starts_day(b, Some(q.0)));
}

/// Under a clock that runs forward a span starts before it ends, so that a known
/// instant lies before a date, on it or after it, and in exactly one of these.
pub proof fn law_before_on_after(
    s: Seq<char>,
    today: Day,
    p: (i64, i64),
    before: DateFilter,
    on: DateFilter,
    after: DateFilter,
    ms: i64,
)
    requires
        clock_runs(),
        dates::read_on(s, today, Some(p)),
        before.bounds() == dates::op_bounds(DateOp::Before, p.0 as int, p.1 as int),
        on.bounds() == dates::op_bounds(DateOp::On, p.0 as int, p.1 as int),
        after.bounds() == dates::op_bounds(DateOp::After, p.0 as int, p.1 as int),
    ensures
        p.0 < p.1,
        dates::in_date(Some(ms), before) == (ms < p.0),
        dates::in_date(Some(ms), on) == (p.0 <= ms < p.1),
        dates::in_date(Some(ms), after) == (p.1 <= ms),
{
    law_span_runs(s, today);
    let x = dates::span(s, today)->0;
    let (a, b) = choose|first: Day, next: Day| #[trigger]
        dates::are_days(first, next, x) && dates::days_read(first, next, Some(p));
    assert(dates::are_days(a, b, x));
    assert(dates::clock_starts_day(a, Some(p.0)) && dates::clock_starts_day(b, Some(p.1)));
}

/// Whether a character parts a date.
pub open spec fn is_parting(c: char) -> bool {
    c == '-' || c == '/'
}

/// Whether two texts differ at most in which of `-` and `/` parts them.
pub open spec fn parted_alike(s: Seq<char>, t: Seq<char>) -> bool {
    &&& s.len() == t.len()
    &&& forall|i: int|
        0 <= i < s.len() ==> (#[trigger] s[i] == #[trigger] t[i]) || (is_parting(s[i])
            && is_parting(t[i]))
}

proof fn lemma_alike_trimmed(s: Seq<char>, t: Seq<char>)
    requires
        parted_alike(s, t),
    ensures
        parted_alike(text::trimmed_start(s), text::trimmed_start(t)),
        parted_alike(text::trimmed_end(s), text::trimmed_end(t)),
    decreases s.len(),
{
    if s.len() > 0 {
        let n = s.len() - 1;
        assert(s[0] == t[0] || (is_parting(s[0]) && is_parting(t[0])));
        assert(s[n] == t[n] || (is_parting(s[n]) && is_parting(t[n])));
        if text::is_space(s[0]) {
            assert(parted_alike(s.drop_first(), t.drop_first())) by {
                assert forall|i: int| 0 <= i < n implies (#[trigger] s.drop_first()[i]
                    == #[trigger] t.drop_first()[i]) || (is_parting(s.drop_first()[i])
                    && is_parting(t.drop_first()[i])) by {
                    assert(s.drop_first()[i] == s[i + 1] && t.drop_first()[i] == t[i + 1]);
                }
            }
            lemma_alike_trimmed(s.drop_first(), t.drop_first());
        }
        if text::is_space(s[n]) {
            assert(parted_alike(s.drop_last(), t.drop_last())) by {
                assert forall|i: int| 0 <= i < n implies (#[trigger] s.drop_last()[i]
                    == #[trigger] t.drop_last()[i]) || (is_parting(s.drop_last()[i])
                    && is_parting(t.drop_last()[i])) by {
                    assert(s.drop_last()[i] == s[i] && t.drop_last()[i] == t[i]);
                }
            }
            lemma_alike_trimmed(s.drop_last(), t.drop_last());
        }
    }
}

proof fn lemma_alike_parts(s: Seq<char>, t: Seq<char>, cur: Seq<char>)
    requires
        parted_alike(s, t),
    ensures
        dates::parts_from(s, cur) == dates::parts_from(t, cur),
    decreases s.len(),
{
    if s.len() > 0 {
        assert(s[0] == t[0] || (is_parting(s[0]) && is_parting(t[0])));
        assert(parted_alike(s.drop_first(), t.drop_first())) by {
            assert forall|i: int| 0 <= i < s.len() - 1 implies (#[trigger] s.drop_first()[i]
                == #[trigger] t.drop_first()[i]) || (is_parting(s.drop_first()[i])
                && is_parting(t.drop_first()[i])) by {
                assert(s.drop_first()[i] == s[i + 1] && t.drop_first()[i] == t[i + 1]);
            }
        }
        if is_parting(s[0]) {
            lemma_alike_parts(s.drop_first(), t.drop_first(), Seq::empty());
        } else {
            lemma_alike_parts(s.drop_first(), t.drop_first(), cur.push(s[0]));
        }
    }
}

/// A keyword has no `-` and no `/`, so only a text that is it is parted like it.
proof fn lemma_alike_keyword(s: Seq<char>, t: Seq<char>, k: Seq<char>)
    requires
        parted_alike(s, t),
        forall|i: int| 0 <= i < k.len() ==> 'a' <= #[trigger] k[i] <= 'z',
    ensures
        s == k <==> t == k,
{
    if s == k {
        assert forall|i: int| 0 <= i < s.len() implies s[i] == t[i] by {
            assert('a' <= k[i] <= 'z');
            assert(s[i] == t[i] || (is_parting(s[i]) && is_parting(t[i])));
        }
        assert(t =~= k);
    }
    if t == k {
        assert forall|i: int| 0 <= i < s.len() implies s[i] == t[i] by {
            assert('a' <= k[i] <= 'z');
            assert(s[i] == t[i] || (is_parting(s[i]) && is_parting(t[i])));
        }
        assert(s =~= k);
    }
}

/// In a date `/` may stand for `-`.
pub proof fn law_parting(s: Seq<char>, t: Seq<char>, today: Day)
    requires
        parted_alike(s, t),
    ensures
        dates::span(s, today) == dates::span(t, today),
{
    lemma_alike_trimmed(s, t);
    lemma_alike_trimmed(text::trimmed_start(s), text::trimmed_start(t));
    let a = text::trimmed(s);
    let b = text::trimmed(t);
    let x = text::ascii_lowered(a);
    let y = text::ascii_lowered(b);
    assert(parted_alike(x, y)) by {
        assert forall|i: int| 0 <= i < x.len() implies (#[trigger] x[i] == #[trigger] y[i]) || (
        is_parting(x[i]) && is_parting(y[i])) by {
            assert(a[i] == b[i] || (is_parting(a[i]) && is_parting(b[i])));
            assert(x[i] == text::ascii_lower(a[i]) && y[i] == text::ascii_lower(b[i]));
        }
    }
    lemma_alike_parts(x, y, Seq::empty());
    reveal_strlit("today");
    reveal_strlit("yesterday");
    reveal_strlit("thisweek");
    reveal_strlit("lastweek");
    reveal_strlit("thismonth");
    reveal_strlit("lastmonth");
    reveal_strlit("thisyear");
    reveal_strlit("lastyear");
    lemma_alike_keyword(x, y, "today"@);
    lemma_alike_keyword(x, y, "yesterday"@);
    lemma_alike_keyword(x, y, "thisweek"@);
    lemma_alike_keyword(x, y, "lastweek"@);
    lemma_alike_keyword(x, y, "thismonth"@);
    lemma_alike_keyword(x, y, "lastmonth"@);
    lemma_alike_keyword(x, y, "thisyear"@);
    lemma_alike_keyword(x, y, "lastyear"@);
}

/// The part under way goes on with a text that nothing parts.
pub(crate) proof fn lemma_part_on(w: Seq<char>, rest: Seq<char>, cur: Seq<char>)
    requires
        forall|i: int| 0 <= i < w.len() ==> !is_parting(#[trigger] w[i]),
    ensures
        dates::parts_from(w + rest, cur) == dates::parts_from(rest, cur + w),
    decreases w.len(),
{
    if w.len() == 0 {
        assert(w + rest =~= rest);
        assert(cur + w =~= cur);
    } else {
        let tail = w.drop_first();
        assert((w + rest)[0] == w[0]);
        assert((w + rest).drop_first() =~= tail + rest);
        assert forall|i: int| 0 <= i < tail.len() implies !is_parting(#[trigger] tail[i]) by {
            assert(tail[i] == w[i + 1]);
        }
        lemma_part_on(tail, rest, cur.push(w[0]));
        assert(cur.push(w[0]) + tail =~= cur + w);
    }
}

/// The days of digits in three parts.
pub(crate) proof fn lemma_absolute(y: Seq<char>, m: Seq<char>, d: Seq<char>, today: Day)
    requires
        text::is_numeral(y),
        text::is_numeral(m),
        text::is_numeral(d),
    ensures
        dates::span(y, today) == dates::absolute_span(seq![y]),
        dates::span(y + seq!['-'] + m + seq!['-'] + d, today) == dates::absolute_span(
            seq![y, m, d],
        ),
{
    let none = Seq::<char>::empty();
    let dash = seq!['-'];
    let s = y + dash + m + dash + d;
    assert forall|w: Seq<char>| #[trigger] text::is_numeral(w) implies forall|i: int|
        0 <= i < w.len() ==> !is_parting(#[trigger] w[i]) by {
        assert forall|i: int| 0 <= i < w.len() implies !is_parting(#[trigger] w[i]) by {
            assert(text::is_digit(w[i]));
        }
    }
    lemma_unchanged(y);
    assert(s[0] == y[0] && text::is_digit(y[0]));
    assert(s[s.len() - 1] == d[d.len() - 1] && text::is_digit(d[d.len() - 1]));
    assert forall|i: int| 0 <= i < s.len() implies text::is_digit(#[trigger] s[i]) || s[i]
        == '-' by {
        let (a, b) = (y.len() as int, (y + dash + m).len() as int);
        if i < a {
            assert(s[i] == y[i]);
        } else if a < i < b {
            assert(s[i] == m[i - a - 1]);
        } else if b < i {
            assert(s[i] == d[i - b - 1]);
        }
    }
    lemma_unchanged(s);
    let md = m + (dash + d);
    assert(s =~= y + (dash + md));
    lemma_part_on(y, dash + md, none);
    lemma_part_on(y, none, none);
    assert(none + y =~= y && y + none =~= y);
    assert((dash + md).drop_first() =~= md);
    lemma_part_on(m, dash + d, none);
    assert(none + m =~= m);
    assert((dash + d).drop_first() =~= d);
    lemma_part_on(d, none, none);
    assert(none + d =~= d && d + none =~= d);
    assert(dates::parts_from(s, none) =~= seq![y, m, d]);
    lemma_no_keyword(y);
    lemma_no_keyword(s);
}

/// A text of digits and `-` that starts and ends with a digit is as it stands.
pub(crate) proof fn lemma_unchanged(s: Seq<char>)
    requires
        s.len() > 0,
        text::is_digit(s[0]),
        text::is_digit(s[s.len() - 1]),
        forall|i: int| 0 <= i < s.len() ==> text::is_digit(#[trigger] s[i]) || s[i] == '-',
    ensures
        text::ascii_lowered(text::trimmed(s)) == s,
{
    assert(text::trimmed(s) == s);
    assert forall|i: int| 0 <= i < s.len() implies text::ascii_lower(#[trigger] s[i]) == s[i] by {
        assert(text::is_digit(s[i]) || s[i] == '-');
    }
    assert(text::ascii_lowered(s) =~= s);
}

/// No keyword starts with a digit.
pub(crate) proof fn lemma_no_keyword(s: Seq<char>)
    requires
        s.len() > 0,
        text::is_digit(s[0]),
    ensures
        s != "today"@ && s != "yesterday"@ && s != "thisweek"@ && s != "lastweek"@,
        s != "thismonth"@ && s != "lastmonth"@ && s != "thisyear"@ && s != "lastyear"@,
{
    reveal_strlit("today");
    reveal_strlit("yesterday");
    reveal_strlit("thisweek");
    reveal_strlit("lastweek");
    reveal_strlit("thismonth");
    reveal_strlit("lastmonth");
    reveal_strlit("thisyear");
    reveal_strlit("lastyear");
}

/// The first day of a year, given by its digits.
pub open spec fn new_year(y: Seq<char>) -> Seq<char> {
    y + seq!['-'] + seq!['0', '1'] + seq!['-'] + seq!['0', '1']
}

/// The last day of a year, given by its digits.
pub open spec fn year_end(y: Seq<char>) -> Seq<char> {
    y + seq!['-'] + seq!['1', '2'] + seq!['-'] + seq!['3', '1']
}

proof fn lemma_two_digits(a: char, b: char)
    requires
        text::is_digit(a),
        text::is_digit(b),
    ensures
        text::is_numeral(seq![a, b]),
        text::u32_value(seq![a, b]) == Some((a as u32 - '0' as u32) * 10 + (b as u32 - '0' as u32)),
{
    let s = seq![a, b];
    reveal_with_fuel(text::digits_value, 3);
    assert(s.drop_last() =~= seq![a]);
    assert(s.drop_last().drop_last() =~= Seq::empty());
    assert forall|i: int| 0 <= i < s.len() implies text::is_digit(#[trigger] s[i]) by {}
}

/// The days of a date in three parts, given what the parts say.
proof fn lemma_three_parts(
    parts: Seq<Seq<char>>,
    y: int,
    m: int,
    d: int,
)
    requires
        parts.len() == 3,
        text::i32_value(parts[0]) == Some(y),
        text::u32_value(parts[1]) == Some(m),
        text::u32_value(parts[2]) == Some(d),
        dates::ymd_ok(y, m, d),
    ensures
        dates::absolute_span(parts) == dates::span_of(
            dates::year_start(y) + dates::days_before_month(y, m) + d - 1,
            dates::year_start(y) + dates::days_before_month(y, m) + d,
        ),
{
}

/// The calendar reaches the days at the edges of a year, when it reaches the year and
/// the next.
proof fn lemma_edges_ok(y: int)
    requires
        dates::year_ok(y),
        dates::year_ok(y + 1),
    ensures
        dates::day_ok(dates::year_start(y)),
        dates::day_ok(dates::year_start(y) + 1),
        dates::day_ok(dates::year_start(y + 1) - 1),
        dates::day_ok(dates::year_start(y + 1)),
{
    dates::lemma_year_start_monotonic(-262143, y);
    dates::lemma_year_start_monotonic(y + 1, 262142);
    dates::lemma_year_length(y);
    dates::lemma_year_length(262142);
}

/// The days at the edges of the year `n`, given by its digits.
proof fn lemma_edge_parts(y: Seq<char>, n: int)
    requires
        text::i32_value(y) == Some(n),
        dates::year_ok(n),
        dates::year_ok(n + 1),
    ensures
        dates::absolute_span(seq![y, seq!['0', '1'], seq!['0', '1']]) == Some(
            (dates::year_start(n), dates::year_start(n) + 1),
        ),
        dates::absolute_span(seq![y, seq!['1', '2'], seq!['3', '1']]) == Some(
            (dates::year_start(n + 1) - 1, dates::year_start(n + 1)),
        ),
{
    lemma_two_digits('0', '1');
    lemma_two_digits('1', '2');
    lemma_two_digits('3', '1');
    assert(dates::ymd_ok(n, 1, 1) && dates::ymd_ok(n, 12, 31));
    lemma_three_parts(seq![y, seq!['0', '1'], seq!['0', '1']], n, 1, 1);
    lemma_three_parts(seq![y, seq!['1', '2'], seq!['3', '1']], n, 12, 31);
    lemma_edges_ok(n);
    dates::lemma_days_before_month(n, 12);
    assert(dates::days_before_month(n, 1) == 0);
}

/// A date of one part is a year.
proof fn lemma_one_part(y: Seq<char>)
    requires
        dates::absolute_span(seq![y]) is Some,
    ensures
        text::i32_value(y) matches Some(n) && dates::year_ok(n) && dates::year_ok(n + 1)
            && dates::absolute_span(seq![y]) == Some(
            (dates::year_start(n), dates::year_start(n + 1)),
        ),
{
    assert(seq![y][0] == y);
}

/// The days at the edges of a year.
proof fn lemma_year_edges(y: Seq<char>, today: Day)
    requires
        text::is_numeral(y),
        dates::span(y, today) is Some,
    ensures
        dates::span(new_year(y), today) == Some(
            ((dates::span(y, today)->0).0, (dates::span(y, today)->0).0 + 1),
        ),
        dates::span(year_end(y), today) == Some(
            ((dates::span(y, today)->0).1 - 1, (dates::span(y, today)->0).1),
        ),
{
    assert(text::is_numeral(seq!['0', '1']) && text::is_numeral(seq!['1', '2'])
        && text::is_numeral(seq!['3', '1'])) by {
        lemma_two_digits('0', '1');
        lemma_two_digits('1', '2');
        lemma_two_digits('3', '1');
    }
    lemma_absolute(y, seq!['0', '1'], seq!['0', '1'], today);
    lemma_absolute(y, seq!['1', '2'], seq!['3', '1'], today);
    lemma_one_part(y);
    lemma_edge_parts(y, text::i32_value(y)->0);
}

/// A year starts with its `01-01` and ends with its `12-31`, over days, and under a
/// steady clock over instants.
pub proof fn law_year(
    y: Seq<char>,
    today: Day,
    whole: (i64, i64),
    first: (i64, i64),
    last: (i64, i64),
)
    requires
        text::is_numeral(y),
        dates::span(y, today) is Some,
    ensures
        dates::span(new_year(y), today) matches Some(days) && days.0 == (dates::span(
            y,
            today,
        )->0).0,
        dates::span(year_end(y), today) matches Some(days) && days.1 == (dates::span(
            y,
            today,
        )->0).1,
        clock_steady() && dates::read_on(y, today, Some(whole)) && dates::read_on(
            new_year(y),
            today,
            Some(first),
        ) && dates::read_on(year_end(y), today, Some(last)) ==> whole == (first.0, last.1),
{
    lemma_year_edges(y, today);
    if clock_steady() && dates::read_on(y, today, Some(whole)) && dates::read_on(
        new_year(y),
        today,
        Some(first),
    ) && dates::read_on(year_end(y), today, Some(last)) {
        lemma_same_edges(y, new_year(y), today, whole, first);
        lemma_same_edges(y, year_end(y), today, whole, last);
    }
}

/// Under a steady clock spans that share an edge in days share it in instants.
proof fn lemma_same_edges(
    s: Seq<char>,
    t: Seq<char>,
    today: Day,
    p: (i64, i64),
    q: (i64, i64),
)
    requires
        clock_steady(),
        dates::read_on(s, today, Some(p)),
        dates::read_on(t, today, Some(q)),
    ensures
        (dates::span(s, today)->0).0 == (dates::span(t, today)->0).0 ==> p.0 == q.0,
        (dates::span(s, today)->0).1 == (dates::span(t, today)->0).1 ==> p.1 == q.1,
{
    let x = dates::span(s, today)->0;
    let y = dates::span(t, today)->0;
    let (a, b) = choose|first: Day, next: Day| #[trigger]
        dates::are_days(first, next, x) && dates::days_read(first, next, Some(p));
    let (c, d) = choose|first: Day, next: Day| #[trigger]
        dates::are_days(first, next, y) && dates::days_read(first, next, Some(q));
    assert(dates::are_days(a, b, x) && dates::are_days(c, d, y));
    if x.0 == y.0 {
        lemma_number(a, c);
        assert(dates::clock_starts_day(a, Some(p.0)) && dates::clock_starts_day(a, Some(q.0)));
    }
    if x.1 == y.1 {
        lemma_number(b, d);
        assert(dates::clock_starts_day(b, Some(p.1)) && dates::clock_starts_day(b, Some(q.1)));
    }
}

} // verus!
