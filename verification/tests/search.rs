use allthethings::content::extract_content;
use allthethings::dates::{
    date_bounds, date_filter, date_span, parse_date_expr, parse_date_filter, parse_date_span,
    split_date_op, DateOp, Day,
};
use allthethings::matcher::Matcher;
use allthethings::pattern::{build_regex, glob_pattern, word_pattern};
use allthethings::query::tokenize;
use allthethings::search::{parse_attrib, EntryView, SearchOptions};
use allthethings::size::{parse_size_bytes, parse_size_filter, size_within};
use allthethings::text::is_whitespace;
use chrono::{Datelike, Local, NaiveDate, TimeZone};

#[test]
fn extract_content_pulls_terms_and_cleans_query() {
    let (rest, terms) = extract_content(r#"*.log content:"error timeout" report content:fatal"#);
    assert_eq!(rest, "*.log report");
    assert_eq!(
        terms,
        vec!["error timeout".to_string(), "fatal".to_string()]
    );

    let (rest, terms) = extract_content("just a name search");
    assert_eq!(rest, "just a name search");
    assert!(terms.is_empty());

    // A bare `content:` (no term) is dropped; `content` as a substring is not
    // a function.
    let (rest, terms) = extract_content("content: mycontent:x report");
    assert_eq!(rest, "mycontent:x report");
    assert!(terms.is_empty());
}

fn matcher(query: &str) -> Matcher {
    match Matcher::compile(&SearchOptions {
        query: query.into(),
        ..SearchOptions::default()
    }) {
        Ok(m) => m,
        Err(e) => panic!("{e}"),
    }
}

fn view<'a>(
    name: &'a str,
    name_lower: &'a str,
    is_dir: bool,
    size: Option<u64>,
) -> EntryView<'a> {
    EntryView {
        name,
        name_lower,
        path: "",
        path_lower: "",
        is_dir,
        size,
        modified_ms: None,
        created_ms: None,
        accessed_ms: None,
        attributes: 0,
    }
}

fn hits(m: &Matcher, name: &str, is_dir: bool, size: Option<u64>) -> bool {
    m.eval(&view(name, &name.to_lowercase(), is_dir, size))
}

fn eval_attr(m: &Matcher, attributes: u32) -> bool {
    let mut v = view("x", "x", false, None);
    v.attributes = attributes;
    m.eval(&v)
}

fn eval_modified(m: &Matcher, modified_ms: Option<i64>) -> bool {
    let mut v = view("x", "x", false, None);
    v.modified_ms = modified_ms;
    m.eval(&v)
}

#[test]
fn implicit_and() {
    let m = matcher("foo bar");
    assert!(hits(&m, "a-foo-bar.txt", false, None));
    assert!(!hits(&m, "foo.txt", false, None));
}

#[test]
fn or_operator() {
    let m = matcher("foo | bar");
    assert!(hits(&m, "foo.txt", false, None));
    assert!(hits(&m, "bar.txt", false, None));
    assert!(!hits(&m, "baz.txt", false, None));
}

#[test]
fn not_operator() {
    let m = matcher("report !draft");
    assert!(hits(&m, "report-final.txt", false, None));
    assert!(!hits(&m, "report-draft.txt", false, None));
}

#[test]
fn quoted_phrase_is_literal() {
    let m = matcher("\"a | b\"");
    assert!(hits(&m, "x a | b y", false, None));
    assert!(!hits(&m, "a then b", false, None));
}

#[test]
fn functions_combine_with_booleans() {
    let m = matcher("ext:dll | ext:exe");
    assert!(hits(&m, "user32.dll", false, None));
    assert!(hits(&m, "app.exe", false, None));
    assert!(!hits(&m, "notes.txt", false, None));

    let m = matcher("folder: data");
    assert!(hits(&m, "data", true, None));
    assert!(!hits(&m, "data.txt", false, None));

    let m = matcher("size:>1mb");
    assert!(hits(&m, "big.bin", false, Some(2 * 1024 * 1024)));
    assert!(!hits(&m, "small.bin", false, Some(1024)));
}

#[test]
fn empty_matches_all() {
    let m = matcher("");
    assert!(m.matches_all());
    assert!(hits(&m, "anything", false, None));
}

#[test]
fn attrib_requires_all_listed_bits() {
    let m = matcher("attrib:h");
    assert!(eval_attr(&m, 0x2)); // hidden
    assert!(eval_attr(&m, 0x2 | 0x20)); // hidden + archive
    assert!(!eval_attr(&m, 0x20)); // archive only

    let m = matcher("attrib:hs");
    assert!(eval_attr(&m, 0x2 | 0x4)); // hidden + system
    assert!(!eval_attr(&m, 0x2)); // hidden but not system
}

#[test]
fn date_filters_use_inclusive_bounds() {
    // 2024-06-15T12:00:00Z — months from any year boundary, so timezone
    // offset can't move it across the asserted edges.
    let ms = Some(1_718_452_800_000);

    assert!(eval_modified(&matcher("dm:>=2024-01-01"), ms));
    assert!(!eval_modified(&matcher("dm:<2024-01-01"), ms));
    assert!(eval_modified(&matcher("dm:2024-01-01..2024-12-31"), ms));
    assert!(eval_modified(&matcher("dm:2024"), ms));
    assert!(!eval_modified(&matcher("dm:2023"), ms));
}

#[test]
fn unknown_date_never_matches() {
    assert!(!eval_modified(&matcher("dm:>=2000"), None));
}

#[test]
fn out_of_range_year_is_dropped_not_panicking() {
    // Years past chrono's range (and i32::MAX, which would overflow `year+1`)
    // must drop the term rather than panic.
    assert!(matcher("dm:2147483647").matches_all());
    assert!(matcher("dm:>=999999999").matches_all());
    assert!(matcher("dm:2147483647..2147483647").matches_all());
}

#[test]
fn date_keywords_parse() {
    // Relative keywords depend on "now"; assert only that they compile to a
    // usable predicate (not dropped) rather than a specific instant.
    for kw in [
        "today",
        "yesterday",
        "thisweek",
        "lastweek",
        "thismonth",
        "lastmonth",
        "thisyear",
        "lastyear",
    ] {
        let m = matcher(&format!("dm:{kw}"));
        assert!(!m.matches_all(), "dm:{kw} should be a real predicate");
    }
}

#[test]
fn parentheses_group() {
    let m = matcher("report (draft | final)");
    assert!(hits(&m, "report-draft", false, None));
    assert!(hits(&m, "report-final", false, None));
    assert!(!hits(&m, "report", false, None));
    assert!(!hits(&m, "draft", false, None));

    let m = matcher("a !(b | c)");
    assert!(hits(&m, "a", false, None));
    assert!(!hits(&m, "ab", false, None));
    assert!(!hits(&m, "ac", false, None));

    let m = matcher("((a | b) (c | d))");
    assert!(hits(&m, "ad", false, None));
    assert!(!hits(&m, "ab", false, None));
}

#[test]
fn unbalanced_parentheses_are_tolerated() {
    let m = matcher("foo (bar");
    assert!(hits(&m, "foobar", false, None));
    assert!(!hits(&m, "foo", false, None));
    let m = matcher("foo) bar");
    assert!(hits(&m, "foobar", false, None));
    assert!(!hits(&m, "foo", false, None));
    let m = matcher("\"(x86)\"");
    assert!(hits(&m, "Program Files (x86)", true, None));
    assert!(matcher("()").matches_all());
}

#[test]
fn wildcards_cover_the_whole_name() {
    let m = matcher("*.log");
    assert!(hits(&m, "App.LOG", false, None));
    assert!(!hits(&m, "app.log.txt", false, None));
    let m = matcher("a?c");
    assert!(hits(&m, "abc", false, None));
    assert!(!hits(&m, "abbc", false, None));
    let m = matcher("a.c*");
    assert!(!hits(&m, "abc", false, None));
}

fn with(query: &str, change: fn(&mut SearchOptions)) -> Matcher {
    let mut o = SearchOptions {
        query: query.into(),
        ..SearchOptions::default()
    };
    change(&mut o);
    match Matcher::compile(&o) {
        Ok(m) => m,
        Err(e) => panic!("{e}"),
    }
}

#[test]
fn modes_change_how_text_matches() {
    let m = with("Foo", |o| o.match_case = true);
    assert!(hits(&m, "aFoo", false, None));
    assert!(!hits(&m, "afoo", false, None));
    let m = with("foo", |o| o.whole_word = true);
    assert!(hits(&m, "a Foo.txt", false, None));
    assert!(!hits(&m, "food", false, None));
    let m = with("^f.o$", |o| o.regex = true);
    assert!(hits(&m, "FXO", false, None));
    assert!(!hits(&m, "xfxo", false, None));
    let m = with("dir foo", |o| o.match_path = true);
    assert!(m.needs_path());
    let mut v = view("foo", "foo", false, None);
    v.path = "C:\\Dir\\foo";
    v.path_lower = "c:\\dir\\foo";
    assert!(m.eval(&v));
    v.path_lower = "c:\\other\\foo";
    assert!(!m.eval(&v));
    assert!(!matcher("dir").needs_path());
    assert!(matcher("path:dir").needs_path());
    let m = matcher("É");
    assert!(hits(&m, "caf\u{e9}", false, None));
}

#[test]
fn broken_patterns_are_reported_in_regex_mode() {
    let o = SearchOptions {
        query: "[".into(),
        regex: true,
        ..SearchOptions::default()
    };
    match Matcher::compile(&o) {
        Err(e) => assert!(e.contains("unclosed character class")),
        Ok(_) => panic!("the pattern is broken"),
    }
    let o = SearchOptions {
        query: "  ".into(),
        regex: true,
        ..SearchOptions::default()
    };
    match Matcher::compile(&o) {
        Ok(m) => assert!(m.matches_all()),
        Err(e) => panic!("{e}"),
    }
}

#[test]
fn patterns_are_built_from_text() {
    assert_eq!(glob_pattern("a*b?.c"), "^a.*b.\\.c$");
    assert_eq!(word_pattern("a.b"), "\\ba\\.b\\b");
    assert!(build_regex("a", false).unwrap().is_match("A"));
    assert!(!build_regex("a", true).unwrap().is_match("A"));
    assert!(build_regex("(", true).is_err());
}

#[test]
fn a_query_is_cut_into_tokens() {
    let tokens = tokenize("foo |!\"a b\" (x)");
    assert_eq!(tokens.len(), 7);
}

#[test]
fn whitespace_is_unicode_whitespace() {
    for u in 0..=0x10FFFFu32 {
        if let Some(c) = char::from_u32(u) {
            assert_eq!(is_whitespace(c), c.is_whitespace(), "{u:x}");
        }
    }
}

#[test]
fn attribute_letters_are_parsed() {
    assert_eq!(parse_attrib("rhs"), Some(7));
    assert_eq!(parse_attrib("RHS"), Some(7));
    assert_eq!(parse_attrib("da"), Some(0x30));
    assert_eq!(parse_attrib(""), None);
}

fn float_size(number: f64, unit: f64) -> u64 {
    (number * unit) as u64
}

#[test]
fn sizes_are_read_as_floating_point_products() {
    assert_eq!(parse_size_bytes("1kb"), Some(1024));
    assert_eq!(parse_size_bytes("1.5mb"), Some(float_size(1.5, 1048576.0)));
    assert_eq!(parse_size_bytes("0.1gb"), Some(float_size(0.1, 1073741824.0)));
    assert_eq!(parse_size_bytes("0.3kb"), Some(float_size(0.3, 1024.0)));
    assert_eq!(parse_size_bytes("123456789.987"), Some(float_size(123456789.987, 1.0)));
    assert_eq!(
        parse_size_bytes("9007199254740993"),
        Some(float_size(9007199254740993.0, 1.0))
    );
    assert_eq!(
        parse_size_bytes("99999999999999999999999"),
        Some(u64::MAX)
    );
    assert_eq!(parse_size_bytes("12xb"), None);
    assert_eq!(parse_size_bytes(""), None);
}

#[test]
fn size_filters_bound_both_ways() {
    let f = parse_size_filter(">1mb").unwrap();
    assert!(size_within(Some(1_048_577), &f));
    assert!(!size_within(Some(1_048_576), &f));
    assert!(!size_within(None, &f));
    let f = parse_size_filter(">=1mb").unwrap();
    assert!(size_within(Some(1_048_576), &f));
    let f = parse_size_filter("<1kb").unwrap();
    assert!(size_within(Some(1023), &f));
    assert!(!size_within(Some(1024), &f));
    let f = parse_size_filter("<=1kb").unwrap();
    assert!(size_within(Some(1024), &f));
    let f = parse_size_filter("1kb").unwrap();
    assert!(size_within(Some(1024), &f));
    assert!(!size_within(Some(1023), &f));
    assert!(!size_within(Some(1025), &f));
    let m = matcher("size:>=1mb size:<16mb");
    assert!(hits(&m, "a", false, Some(1 << 20)));
    assert!(!hits(&m, "a", false, Some(16 << 20)));
    assert!(parse_size_filter("1kb..2kb").is_none());
    assert!(parse_size_filter("x").is_none());
}

fn day(year: i32, month: u32, day: u32) -> Day {
    Day { year, month, day }
}

fn span(s: &str, today: Day) -> ((i32, u32, u32), (i32, u32, u32)) {
    let (a, b) = date_span(s, today).unwrap();
    ((a.year, a.month, a.day), (b.year, b.month, b.day))
}

#[test]
fn date_spans_are_half_open() {
    // A Saturday.
    let today = day(2024, 6, 15);
    assert_eq!(span("today", today), ((2024, 6, 15), (2024, 6, 16)));
    assert_eq!(span("yesterday", today), ((2024, 6, 14), (2024, 6, 15)));
    assert_eq!(span("thisweek", today), ((2024, 6, 10), (2024, 6, 17)));
    assert_eq!(span("lastweek", today), ((2024, 6, 3), (2024, 6, 10)));
    assert_eq!(span("thismonth", today), ((2024, 6, 1), (2024, 7, 1)));
    assert_eq!(span("lastmonth", today), ((2024, 5, 1), (2024, 6, 1)));
    assert_eq!(span("thisyear", today), ((2024, 1, 1), (2025, 1, 1)));
    assert_eq!(span("lastyear", today), ((2023, 1, 1), (2024, 1, 1)));
    assert_eq!(span("2024", today), ((2024, 1, 1), (2025, 1, 1)));
    assert_eq!(span("2024-02", today), ((2024, 2, 1), (2024, 3, 1)));
    assert_eq!(span("2024-02-29", today), ((2024, 2, 29), (2024, 3, 1)));
    assert!(date_span("2023-02-29", today).is_none());
    assert!(date_span("2024-13", today).is_none());
    assert!(date_span("soon", today).is_none());
    assert!(date_span("2147483647", today).is_none());
}

#[test]
fn weeks_start_on_monday_across_a_year() {
    let mut d = NaiveDate::from_ymd_opt(2023, 1, 1).unwrap();
    for _ in 0..400 {
        let ((y, m, n), _) = span("thisweek", day(d.year(), d.month(), d.day()));
        let start = NaiveDate::from_ymd_opt(y, m, n).unwrap();
        assert_eq!(start.weekday(), chrono::Weekday::Mon);
        let back = d.signed_duration_since(start).num_days();
        assert!((0..7).contains(&back));
        d = d.succ_opt().unwrap();
    }
}

#[test]
fn date_expressions_are_split() {
    let (op, rest) = split_date_op(">=2024");
    assert!(op == DateOp::From && rest == "2024");
    let (op, rest) = split_date_op(">2024");
    assert!(op == DateOp::After && rest == "2024");
    let (op, rest) = split_date_op("<=x");
    assert!(op == DateOp::Until && rest == "x");
    let (op, rest) = split_date_op("<x");
    assert!(op == DateOp::Before && rest == "x");
    let (op, rest) = split_date_op("today");
    assert!(op == DateOp::On && rest == "today");
    assert!(parse_date_expr("").is_none());
}

#[test]
fn date_bounds_are_inclusive() {
    let f = date_bounds(DateOp::On, 10, 20);
    assert_eq!((f.min, f.max), (Some(10), Some(19)));
    let f = date_bounds(DateOp::From, 10, 20);
    assert_eq!((f.min, f.max), (Some(10), None));
    let f = date_bounds(DateOp::After, 10, 20);
    assert_eq!((f.min, f.max), (Some(20), None));
    let f = date_bounds(DateOp::Before, 10, 20);
    assert_eq!((f.min, f.max), (None, Some(9)));
    let f = date_bounds(DateOp::Until, 10, 20);
    assert_eq!((f.min, f.max), (None, Some(19)));
}

#[test]
fn dates_resolve_to_local_midnights() {
    let midnight = |y: i32, m: u32, d: u32| {
        let at = NaiveDate::from_ymd_opt(y, m, d)
            .unwrap()
            .and_hms_opt(0, 0, 0)
            .unwrap();
        Local.from_local_datetime(&at).earliest().unwrap().timestamp_millis()
    };
    let (a, b) = parse_date_span("2024-06").unwrap();
    assert_eq!(a, midnight(2024, 6, 1));
    assert_eq!(b, midnight(2024, 7, 1));
    let f = parse_date_filter("2024-01-01..2024-12-31").unwrap();
    assert_eq!(f.min, Some(midnight(2024, 1, 1)));
    assert_eq!(f.max, Some(midnight(2025, 1, 1) - 1));
    assert!(parse_date_filter("someday").is_none());
}

#[test]
fn resolved_dates_make_a_filter() {
    let single = parse_date_expr(">=x").unwrap();
    let f = date_filter(&single, Some((5, 9)), None).unwrap();
    assert_eq!((f.min, f.max), (Some(5), None));
    assert!(date_filter(&single, None, None).is_none());
    let range = parse_date_expr("x..y").unwrap();
    let f = date_filter(&range, Some((5, 9)), Some((20, 30))).unwrap();
    assert_eq!((f.min, f.max), (Some(5), Some(29)));
    assert!(date_filter(&range, Some((5, 9)), None).is_none());
}

/// What floating-point arithmetic makes of a number and a unit.
fn by_floats(number: &str, unit: f64) -> Option<u64> {
    let value: f64 = number.parse().ok()?;
    Some((value * unit) as u64)
}

#[test]
fn sizes_agree_with_floating_point_everywhere() {
    let units = [
        ("", 1.0),
        ("b", 1.0),
        ("kb", 1024.0),
        ("K", 1024.0),
        (" mb", 1048576.0),
        ("gb", 1073741824.0),
        ("TB", 1099511627776.0),
    ];
    let mut numbers: Vec<String> = [
        "0", "00", "1.", ".5", ".", "", "1.2.3", "0.0000001", "4503599627370497.5",
        "9007199254740992", "9007199254740993", "9007199254740995", "18014398509481985",
        "18446744073709551615", "18446744073709551616", "179769313486231580000000000000000000000",
        "0.1", "0.7", "1.005", "2.675", "123456789.123456789",
        "0.000000000000000000000000000000000001",
    ]
    .iter()
    .map(|n| n.to_string())
    .collect();
    let mut seed: u64 = 88172645463325252;
    for _ in 0..3000 {
        seed ^= seed << 13;
        seed ^= seed >> 7;
        seed ^= seed << 17;
        let whole = seed % 10u64.pow((seed % 17) as u32 + 1);
        let point = (seed >> 32) % 1_000_000_007;
        numbers.push(format!("{whole}.{point}"));
        numbers.push(format!("{seed}{whole}"));
    }
    for n in &numbers {
        for (unit, factor) in units {
            let text = format!("{n}{unit}");
            assert_eq!(parse_size_bytes(&text), by_floats(n, factor), "{text}");
        }
    }
}

#[test]
fn opposite_size_filters_split_the_sizes() {
    let below = parse_size_filter("<5").unwrap();
    let from = parse_size_filter(">=5").unwrap();
    let above = parse_size_filter(">5").unwrap();
    let until = parse_size_filter("<=5").unwrap();
    for n in 0..12u64 {
        assert_ne!(size_within(Some(n), &below), size_within(Some(n), &from));
        assert_ne!(size_within(Some(n), &above), size_within(Some(n), &until));
    }
}

#[test]
fn opposite_date_filters_split_the_known_times() {
    for (a, b) in [("<2024-06-15", ">=2024-06-15"), ("<=2024", ">2024")] {
        let a = matcher(&format!("dm:{a}"));
        let b = matcher(&format!("dm:{b}"));
        for day in 0..2000i64 {
            let ms = Some(1_650_000_000_000 + day * 43_200_000);
            assert_ne!(eval_modified(&a, ms), eval_modified(&b, ms));
        }
    }
}

const NAMES: [&str; 6] = ["foo", "bar", "foobar", "a.txt", "foo.txt", "x"];

#[test]
fn an_empty_branch_in_front_changes_nothing() {
    for q in ["foo", "foo | bar", "!foo bar", "ext:txt", ""] {
        let plain = matcher(q);
        let branched = matcher(&format!("| {q}"));
        assert_eq!(plain.matches_all(), branched.matches_all());
        assert_eq!(plain.needs_path(), branched.needs_path());
        for name in NAMES {
            assert_eq!(
                hits(&plain, name, false, None),
                hits(&branched, name, false, None)
            );
        }
    }
}

#[test]
fn words_combine_at_the_matcher() {
    for a in ["foo", "ext:txt", "*.txt"] {
        for b in ["bar", "f?o*"] {
            let (ma, mb) = (matcher(a), matcher(b));
            let both = matcher(&format!("{a} {b}"));
            let either = matcher(&format!("{a} | {b}"));
            let not = matcher(&format!("!{a}"));
            let not_not = matcher(&format!("!!{a}"));
            for name in NAMES {
                let (x, y) = (hits(&ma, name, false, None), hits(&mb, name, false, None));
                assert_eq!(hits(&both, name, false, None), x && y);
                assert_eq!(hits(&either, name, false, None), x || y);
                assert_eq!(hits(&not, name, false, None), !x);
                assert_eq!(hits(&not_not, name, false, None), x);
            }
        }
    }
}

#[test]
fn content_works_on_whole_words_without_quotes() {
    let (rest, terms) = extract_content("  a content:X\tCONTENT:y  b content: mycontent:z ");
    assert_eq!(rest, "a b mycontent:z");
    assert_eq!(terms, ["X", "y"]);
    assert_eq!(extract_content(&rest), (rest.clone(), vec![]));
}

fn as_days(s: &str, today: Day) -> (NaiveDate, NaiveDate) {
    let (a, b) = date_span(s, today).unwrap();
    let day = |d: Day| NaiveDate::from_ymd_opt(d.year, d.month, d.day).unwrap();
    (day(a), day(b))
}

#[test]
fn neighbouring_spans_meet() {
    let today = Day {
        year: 2024,
        month: 3,
        day: 1,
    };
    for (earlier, later) in [
        ("yesterday", "today"),
        ("lastweek", "thisweek"),
        ("lastmonth", "thismonth"),
        ("lastyear", "thisyear"),
    ] {
        let (a, b) = (as_days(earlier, today), as_days(later, today));
        assert_eq!(a.1, b.0);
        assert!(a.0 < a.1 && b.0 < b.1);
        let (p, q) = (
            parse_date_span(earlier).unwrap(),
            parse_date_span(later).unwrap(),
        );
        assert!(p.0 < p.1 && q.0 < q.1);
        assert_eq!(p.1, q.0);
    }
    assert_eq!(as_days("2024", today).0, as_days("2024-01-01", today).0);
    assert_eq!(as_days("2024", today).1, as_days("2024-12-31", today).1);
    assert_eq!(as_days("2024/02/29", today), as_days("2024-02-29", today));
    for none in ["2024-02-30", "2024-13", "2147483647", "1-2-3-4"] {
        assert_eq!(parse_date_span(none), None);
    }
}

#[test]
fn an_instant_lies_before_on_or_after_a_date() {
    let (before, on, after) = (matcher("dm:<2024"), matcher("dm:2024"), matcher("dm:>2024"));
    for day in 0..1500i64 {
        let ms = Some(1_650_000_000_000 + day * 86_400_000);
        let sides = [&before, &on, &after].map(|m| eval_modified(m, ms));
        assert_eq!(sides.iter().filter(|s| **s).count(), 1);
    }
}

#[test]
fn a_refused_pattern_is_reported_as_the_engine_does() {
    let options = SearchOptions {
        query: " a(b ".into(),
        regex: true,
        ..SearchOptions::default()
    };
    let message = build_regex("a(b", false).err().unwrap();
    assert_eq!(Matcher::compile(&options).err(), Some(message));
}

#[test]
fn a_pattern_that_compiles_too_large_is_refused() {
    let options = |query: &str| SearchOptions {
        query: query.into(),
        regex: true,
        ..SearchOptions::default()
    };
    assert!(Matcher::compile(&options(r"\w{2}")).is_ok());
    assert!(Matcher::compile(&options(r"\w{9000}")).is_err());
}
