//! Serialize a result set to an export file: pure formatting over [`Hit`]s.
//!
//! Three formats mirror voidtools Everything: plain text (one full path per
//! line), CSV (human-readable columns), and EFU (the Everything File List
//! format: full path, byte size, creation/modified times as Windows FILETIMEs,
//! and the numeric attribute mask).

use crate::dates;
use crate::dates::Day;
use crate::hit;
use crate::hit::{Hit, HitView};
use crate::index;
use crate::index::FILETIME_UNIX_DIFF_MS;
use crate::search;
use crate::text;
use crate::text::{chars_of, contains_char, is_text, push_decimal};
use chrono::{Datelike, Local, TimeZone, Timelike};
use vstd::prelude::*;
use vstd::string::*;

verus! {

/// A supported export file format.
#[derive(Debug, Clone, Copy, PartialEq, Eq, Structural)]
pub enum ExportFormat {
    Csv,
    Txt,
    Efu,
}

/// The format of this name.
pub open spec fn format_of(name: Seq<char>) -> Option<ExportFormat> {
    if name == "csv"@ {
        Some(ExportFormat::Csv)
    } else if name == "txt"@ {
        Some(ExportFormat::Txt)
    } else if name == "efu"@ {
        Some(ExportFormat::Efu)
    } else {
        None
    }
}

impl ExportFormat {
    /// Parse the UI's format name, rejecting anything unknown.
    pub fn parse(name: &str) -> (r: Option<Self>)
        ensures
            r == format_of(name@),
    {
        let chars = chars_of(name);
        if is_text(chars.as_slice(), "csv") {
            Some(ExportFormat::Csv)
        } else if is_text(chars.as_slice(), "txt") {
            Some(ExportFormat::Txt)
        } else if is_text(chars.as_slice(), "efu") {
            Some(ExportFormat::Efu)
        } else {
            None
        }
    }
}

/// Whether a text has to be quoted as a CSV field.
pub open spec fn needs_quotes(s: Seq<char>) -> bool {
    s.contains(',') || s.contains('"') || s.contains('\n') || s.contains('\r')
}

/// The text with each `"` doubled.
pub open spec fn doubled(s: Seq<char>) -> Seq<char>
    decreases s.len(),
{
    if s.len() == 0 {
        Seq::empty()
    } else if s.last() == '"' {
        doubled(s.drop_last()).push('"').push('"')
    } else {
        doubled(s.drop_last()).push(s.last())
    }
}

/// A text as a CSV field.
pub open spec fn field_of(s: Seq<char>) -> Seq<char> {
    if needs_quotes(s) {
        (seq!['"'] + doubled(s)).push('"')
    } else {
        s
    }
}

/// Quote a CSV field if it contains a comma, quote, or newline; double internal
/// quotes per RFC 4180.
pub fn csv_field(s: &str) -> (r: String)
    ensures
        r@ == field_of(s@),
{
    let chars = chars_of(s);
    let c = chars.as_slice();
    if !(contains_char(c, ',') || contains_char(c, '"') || contains_char(c, '\n')
        || contains_char(c, '\r')) {
        return text::string_of(c);
    }
    let mut out = String::new();
    out.push('"');
    let mut i: usize = 0;
    assert(out@ =~= seq!['"'] + doubled(chars@.take(0)));
    while i < chars.len()
        invariant
            i <= chars@.len(),
            out@ == seq!['"'] + doubled(chars@.take(i as int)),
        decreases chars@.len() - i,
    {
        assert(chars@.take(i + 1).drop_last() =~= chars@.take(i as int));
        let ghost before = doubled(chars@.take(i as int));
        out.push(chars[i]);
        if chars[i] == '"' {
            out.push('"');
        }
        assert(out@ =~= seq!['"'] + doubled(chars@.take(i + 1)));
        i += 1;
    }
    assert(chars@.take(i as int) =~= chars@);
    out.push('"');
    out
}

/// The text with each pair of `"` made one.
pub open spec fn undoubled(s: Seq<char>) -> Seq<char>
    decreases s.len(),
{
    if s.len() == 0 {
        Seq::empty()
    } else if s.len() >= 2 && s.last() == '"' && s[s.len() - 2] == '"' {
        undoubled(s.drop_last().drop_last()).push('"')
    } else {
        undoubled(s.drop_last()).push(s.last())
    }
}

/// What a reader makes of a CSV field: a field in quotes holds what stands between
/// them, with doubled quotes made single.
pub open spec fn field_read(s: Seq<char>) -> Seq<char> {
    if s.len() >= 2 && s[0] == '"' && s.last() == '"' {
        undoubled(s.subrange(1, s.len() - 1))
    } else {
        s
    }
}

/// A text that is written as a CSV field is read back as it was.
pub proof fn law_csv_round_trip(s: Seq<char>)
    ensures
        field_read(field_of(s)) == s,
{
    if needs_quotes(s) {
        let f = field_of(s);
        assert(f.subrange(1, f.len() - 1) =~= doubled(s));
        lemma_undoubled(s);
    } else if s.len() >= 2 && s[0] == '"' {
        assert(s.contains('"'));
    }
}

proof fn lemma_undoubled(s: Seq<char>)
    ensures
        undoubled(doubled(s)) == s,
    decreases s.len(),
{
    if s.len() > 0 {
        let front = s.drop_last();
        lemma_undoubled(front);
        let d = doubled(s);
        if s.last() == '"' {
            assert(d.drop_last().drop_last() =~= doubled(front));
        } else {
            assert(d.drop_last() =~= doubled(front));
        }
        assert(front.push(s.last()) =~= s);
    }
}

/// The largest Unix milliseconds that a FILETIME can hold.
pub const MAX_FILETIME_MS: i64 = 1_833_029_933_770_955;

/// The Windows FILETIME of Unix milliseconds; 0 stands for no time, and a time
/// before 1601 becomes the first instant.
pub open spec fn filetime_of(ms: int) -> int {
    if ms == 0 || ms + FILETIME_UNIX_DIFF_MS < 0 {
        0
    } else {
        (ms + FILETIME_UNIX_DIFF_MS) * 10_000
    }
}

/// Convert Unix milliseconds to a Windows FILETIME tick count (`0` if unknown).
pub fn ms_to_filetime(ms: i64) -> (r: u64)
    requires
        ms <= MAX_FILETIME_MS,
    ensures
        r == filetime_of(ms as int),
{
    if ms == 0 {
        return 0;
    }
    let shifted: i64 = ms + FILETIME_UNIX_DIFF_MS;
    if shifted < 0 {
        0
    } else {
        (shifted as u64) * 10_000
    }
}

/// Unix milliseconds after 1601 other than 0 come back from their FILETIME, and
/// every time that the index takes from a FILETIME can be written as one again, to
/// the millisecond.
pub proof fn law_filetime_round_trip(ms: i64, ft: u64)
    requires
        -FILETIME_UNIX_DIFF_MS < ms <= MAX_FILETIME_MS,
        ms != 0,
    ensures
        0 < filetime_of(ms as int) <= u64::MAX,
        index::unix_ms(filetime_of(ms as int) as u64) == Some(ms),
        index::unix_ms(ft) matches Some(t) ==> t <= MAX_FILETIME_MS && (t != 0 ==> filetime_of(
            t as int,
        ) == ft - ft % 10_000),
{
}

/// The letter of an attribute, when it is set.
pub open spec fn letter(attrs: u32, bit: u32, c: char) -> Seq<char> {
    if attrs & bit != 0 {
        seq![c]
    } else {
        Seq::empty()
    }
}

/// The letters of the set attributes, in Explorer's order.
pub open spec fn letters_of(attrs: u32) -> Seq<char> {
    letter(attrs, 0x1, 'R') + letter(attrs, 0x2, 'H') + letter(attrs, 0x4, 'S') + letter(
        attrs,
        0x20,
        'A',
    ) + letter(attrs, 0x10, 'D') + letter(attrs, 0x400, 'L') + letter(attrs, 0x200, 'P') + letter(
        attrs,
        0x800,
        'C',
    ) + letter(attrs, 0x4000, 'E') + letter(attrs, 0x100, 'T') + letter(attrs, 0x1000, 'O')
        + letter(attrs, 0x2000, 'I')
}

/// Append the letter of an attribute, when it is set.
fn push_letter(s: &mut String, attrs: u32, bit: u32, c: char)
    ensures
        final(s)@ == old(s)@ + letter(attrs, bit, c),
{
    let ghost before = s@;
    if attrs & bit != 0 {
        s.push(c);
    }
    assert(s@ =~= before + letter(attrs, bit, c));
}

/// The letters of the set attributes, in Explorer's order.
pub fn attr_letters(attrs: u32) -> (r: String)
    ensures
        r@ == letters_of(attrs),
{
    let mut s = String::new();
    push_letter(&mut s, attrs, 0x1, 'R');
    push_letter(&mut s, attrs, 0x2, 'H');
    push_letter(&mut s, attrs, 0x4, 'S');
    push_letter(&mut s, attrs, 0x20, 'A');
    push_letter(&mut s, attrs, 0x10, 'D');
    push_letter(&mut s, attrs, 0x400, 'L');
    push_letter(&mut s, attrs, 0x200, 'P');
    push_letter(&mut s, attrs, 0x800, 'C');
    push_letter(&mut s, attrs, 0x4000, 'E');
    push_letter(&mut s, attrs, 0x100, 'T');
    push_letter(&mut s, attrs, 0x1000, 'O');
    push_letter(&mut s, attrs, 0x2000, 'I');
    assert(s@ =~= letters_of(attrs));
    s
}

/// A letter that was written adds its bit to the mask when it is read back.
proof fn lemma_letter(s: Seq<char>, attrs: u32, bit: u32, c: char)
    requires
        search::attrib_bit(text::ascii_lower(c)) == bit,
        attrs & bit == 0 || attrs & bit == bit,
    ensures
        search::attrib_mask(s + letter(attrs, bit, c)) == search::attrib_mask(s) | (attrs & bit),
{
    let m = search::attrib_mask(s);
    if attrs & bit != 0 {
        assert((s + seq![c]).drop_last() =~= s);
    } else {
        assert(s + letter(attrs, bit, c) =~= s);
        assert(m | 0 == m) by (bit_vector);
    }
}

/// Every attribute that has a letter comes back: reading the letters of a set of
/// attributes gives the mask of those that a letter stands for.
pub proof fn law_letters_back(attrs: u32)
    ensures
        search::attrib_mask(letters_of(attrs)) == attrs & 0x7F37,
        attrs & 0x7F37 == attrs ==> search::attrib_mask(letters_of(attrs)) == attrs,
{
    let a = attrs;
    assert((a & 0x1 == 0 || a & 0x1 == 0x1) && (a & 0x2 == 0 || a & 0x2 == 0x2) && (a & 0x4 == 0 || a
        & 0x4 == 0x4) && (a & 0x20 == 0 || a & 0x20 == 0x20) && (a & 0x10 == 0 || a & 0x10 == 0x10)
        && (a & 0x400 == 0 || a & 0x400 == 0x400) && (a & 0x200 == 0 || a & 0x200 == 0x200) && (a
        & 0x800 == 0 || a & 0x800 == 0x800) && (a & 0x4000 == 0 || a & 0x4000 == 0x4000) && (a
        & 0x100 == 0 || a & 0x100 == 0x100) && (a & 0x1000 == 0 || a & 0x1000 == 0x1000) && (a
        & 0x2000 == 0 || a & 0x2000 == 0x2000)) by (bit_vector);
    let s0 = Seq::<char>::empty();
    let s1 = letter(a, 0x1, 'R');
    assert(s0 + s1 =~= s1);
    let s2 = s1 + letter(a, 0x2, 'H');
    let s3 = s2 + letter(a, 0x4, 'S');
    let s4 = s3 + letter(a, 0x20, 'A');
    let s5 = s4 + letter(a, 0x10, 'D');
    let s6 = s5 + letter(a, 0x400, 'L');
    let s7 = s6 + letter(a, 0x200, 'P');
    let s8 = s7 + letter(a, 0x800, 'C');
    let s9 = s8 + letter(a, 0x4000, 'E');
    let s10 = s9 + letter(a, 0x100, 'T');
    let s11 = s10 + letter(a, 0x1000, 'O');
    lemma_letter(s0, a, 0x1, 'R');
    lemma_letter(s1, a, 0x2, 'H');
    lemma_letter(s2, a, 0x4, 'S');
    lemma_letter(s3, a, 0x20, 'A');
    lemma_letter(s4, a, 0x10, 'D');
    lemma_letter(s5, a, 0x400, 'L');
    lemma_letter(s6, a, 0x200, 'P');
    lemma_letter(s7, a, 0x800, 'C');
    lemma_letter(s8, a, 0x4000, 'E');
    lemma_letter(s9, a, 0x100, 'T');
    lemma_letter(s10, a, 0x1000, 'O');
    lemma_letter(s11, a, 0x2000, 'I');
    assert(0u32 | (a & 0x1) | (a & 0x2) | (a & 0x4) | (a & 0x20) | (a & 0x10) | (a & 0x400) | (a
        & 0x200) | (a & 0x800) | (a & 0x4000) | (a & 0x100) | (a & 0x1000) | (a & 0x2000) == a
        & 0x7F37) by (bit_vector);
}

/// Whether a calendar day and a second of the day are what a clock shows at `ms`
/// Unix milliseconds, when it is `offset` seconds ahead of UTC.
pub open spec fn clock_shows(ms: int, offset: int, day: Day, second: int) -> bool {
    let local = ms / 1000 + offset;
    &&& -86_400 < offset < 86_400
    &&& 1 <= day.month <= 12
    &&& 1 <= day.day <= dates::month_days(day.year as int, day.month as int)
    &&& day.number() == local / 86_400 + 719_163
    &&& second == local % 86_400
}

/// Whether a calendar day and a second of the day are what some clock shows at `ms`
/// Unix milliseconds.
pub open spec fn on_some_clock(ms: int, day: Day, second: int) -> bool {
    exists|offset: int| clock_shows(ms, offset, day, second)
}

/// `TimeZone::timestamp_millis_opt` of `Local`: the calendar day and the second of
/// the day that the local clock shows at an instant, when the calendar reaches the
/// instant. How far the clock is off UTC depends on the time zone.
#[verifier::external_body]
fn local_clock(ms: i64) -> (r: Option<(Day, u32)>)
    ensures
        r is Some <==> dates::day_ok(ms as int / 86_400_000 + 719_163),
        r matches Some(c) ==> on_some_clock(ms as int, c.0, c.1 as int),
{
    let t = Local.timestamp_millis_opt(ms).single()?;
    let day = Day { year: t.year(), month: t.month(), day: t.day() };
    Some((day, t.num_seconds_from_midnight()))
}

/// Whether the local clock can show `shown` at `ms` Unix milliseconds.
pub closed spec fn clock_reads(ms: i64, shown: Option<(Day, u32)>) -> bool {
    call_ensures(local_clock, (ms,), shown)
}

/// A number below 100 in two digits.
pub open spec fn two_digits(n: int) -> Seq<char> {
    seq![text::digit(n / 10), text::digit(n % 10)]
}

/// A year in four digits or more, with a sign unless it is one from 0 to 9999.
pub open spec fn year_text(y: int) -> Seq<char> {
    let n = if y < 0 {
        -y
    } else {
        y
    };
    let sign = if y < 0 {
        seq!['-']
    } else if y > 9999 {
        seq!['+']
    } else {
        Seq::empty()
    };
    sign + if n < 10_000 {
        two_digits(n / 100) + two_digits(n % 100)
    } else {
        text::decimal(n as nat)
    }
}

/// A day and a second of the day as `YYYY-MM-DD HH:MM:SS`.
pub open spec fn clock_text(day: Day, second: int) -> Seq<char> {
    year_text(day.year as int) + seq!['-'] + two_digits(day.month as int) + seq!['-'] + two_digits(
        day.day as int,
    ) + seq![' '] + two_digits(second / 3600) + seq![':'] + two_digits(second / 60 % 60) + seq![
        ':',
    ] + two_digits(second % 60)
}

/// Append a number below 100 in two digits.
fn push_two(out: &mut String, n: u32)
    requires
        n < 100,
    ensures
        final(out)@ == old(out)@ + two_digits(n as int),
{
    let ghost before = out@;
    let tens: u8 = (n / 10) as u8;
    let ones: u8 = (n % 10) as u8;
    out.push(('0' as u8 + tens) as char);
    out.push(('0' as u8 + ones) as char);
    assert(out@ =~= before + two_digits(n as int));
}

/// A day and a second of the day as `YYYY-MM-DD HH:MM:SS`.
pub fn format_clock(day: Day, second: u32) -> (r: String)
    requires
        1 <= day.month <= 12,
        1 <= day.day <= 31,
        second < 86_400,
    ensures
        r@ == clock_text(day, second as int),
{
    let mut out = String::new();
    let y: i64 = day.year as i64;
    let n: u64 = if y < 0 {
        (0 - y) as u64
    } else {
        y as u64
    };
    if y < 0 {
        out.push('-');
    } else if y > 9999 {
        out.push('+');
    }
    if n < 10_000 {
        push_two(&mut out, (n / 100) as u32);
        push_two(&mut out, (n % 100) as u32);
    } else {
        push_decimal(&mut out, n);
    }
    assert(out@ =~= year_text(day.year as int));
    out.push('-');
    push_two(&mut out, day.month);
    out.push('-');
    push_two(&mut out, day.day);
    out.push(' ');
    push_two(&mut out, second / 3600);
    out.push(':');
    push_two(&mut out, second / 60 % 60);
    out.push(':');
    push_two(&mut out, second % 60);
    assert(out@ =~= clock_text(day, second as int));
    out
}

/// Whether a text is what a timestamp becomes in a CSV file by the local clock:
/// nothing when it is unknown or beyond the calendar.
pub open spec fn time_shown(ms: i64, t: Seq<char>) -> bool {
    if ms == 0 || !dates::day_ok(ms as int / 86_400_000 + 719_163) {
        t == Seq::<char>::empty()
    } else {
        exists|day: Day, second: u32| #[trigger]
            clock_reads(ms, Some((day, second))) && on_some_clock(ms as int, day, second as int)
                && t == clock_text(day, second as int)
    }
}

/// Format Unix milliseconds as a local `YYYY-MM-DD HH:MM:SS`, or empty if unknown.
pub fn local_datetime(ms: i64) -> (r: String)
    ensures
        time_shown(ms, r@),
{
    if ms == 0 {
        return String::new();
    }
    match local_clock(ms) {
        Some((day, second)) => {
            proof {
                assert(clock_reads(ms, Some((day, second))));
                let offset = choose|offset: int|
                    clock_shows(ms as int, offset, day, second as int);
                assert(clock_shows(ms as int, offset, day, second as int));
            }
            format_clock(day, second)
        },
        None => String::new(),
    }
}

/// The size of a row in a CSV file: nothing for directories and unknown sizes.
pub open spec fn csv_size(h: HitView) -> Seq<char> {
    if h.is_dir || h.size < 0 {
        Seq::empty()
    } else {
        text::decimal(h.size as nat)
    }
}

/// The size of a row in an EFU file, which has a number in every row: 0 for
/// directories and unknown sizes.
pub open spec fn efu_size_of(h: HitView) -> nat {
    if h.is_dir || h.size < 0 {
        0
    } else {
        h.size as nat
    }
}

/// A row of a CSV file, given its times.
pub open spec fn csv_line_of(
    h: HitView,
    modified: Seq<char>,
    created: Seq<char>,
    accessed: Seq<char>,
) -> Seq<char> {
    field_of(h.name) + seq![','] + field_of(h.path) + seq![','] + csv_size(h) + seq![','] + modified
        + seq![','] + created + seq![','] + accessed + seq![','] + letters_of(h.attributes) + seq![
        '\n',
    ]
}

/// A row of an EFU file.
pub open spec fn efu_line_of(h: HitView) -> Seq<char> {
    field_of(h.path) + seq![','] + text::decimal(efu_size_of(h)) + seq![','] + text::decimal(
        filetime_of(h.modified as int) as nat,
    ) + seq![','] + text::decimal(filetime_of(h.created as int) as nat) + seq![',']
        + text::decimal(h.attributes as nat) + seq!['\n']
}

/// The paths, one per line.
pub open spec fn txt_of(rows: Seq<HitView>) -> Seq<char>
    decreases rows.len(),
{
    if rows.len() == 0 {
        Seq::empty()
    } else {
        txt_of(rows.drop_last()) + rows.last().path + seq!['\n']
    }
}

/// The rows of an EFU file.
pub open spec fn efu_of(rows: Seq<HitView>) -> Seq<char>
    decreases rows.len(),
{
    if rows.len() == 0 {
        "Filename,Size,Date Modified,Date Created,Attributes\n"@
    } else {
        efu_of(rows.drop_last()) + efu_line_of(rows.last())
    }
}

/// The local times of a row.
#[verifier::ext_equal]
pub struct Times {
    pub modified: Seq<char>,
    pub created: Seq<char>,
    pub accessed: Seq<char>,
}

/// The rows of a CSV file, given their times.
pub open spec fn csv_of(rows: Seq<HitView>, times: Seq<Times>) -> Seq<char>
    decreases rows.len(),
{
    if rows.len() == 0 {
        "Name,Path,Size,Date Modified,Date Created,Date Accessed,Attributes\n"@
    } else {
        let t = times[rows.len() - 1];
        csv_of(rows.drop_last(), times) + csv_line_of(
            rows.last(),
            t.modified,
            t.created,
            t.accessed,
        )
    }
}

/// Whether the times are those that some clocks show for the rows.
pub open spec fn times_shown(rows: Seq<HitView>, times: Seq<Times>) -> bool {
    &&& times.len() == rows.len()
    &&& forall|i: int|
        0 <= i < rows.len() ==> {
            let t = #[trigger] times[i];
            &&& time_shown(rows[i].modified, t.modified)
            &&& time_shown(rows[i].created, t.created)
            &&& time_shown(rows[i].accessed, t.accessed)
        }
}

/// Whether a text is the export of the rows in a format. The times of a CSV file
/// depend on the time zone.
pub open spec fn exported(rows: Seq<HitView>, format: ExportFormat, out: Seq<char>) -> bool {
    match format {
        ExportFormat::Txt => out == txt_of(rows),
        ExportFormat::Efu => out == efu_of(rows),
        ExportFormat::Csv => exists|times: Seq<Times>| #[trigger]
            times_shown(rows, times) && out == csv_of(rows, times),
    }
}

/// Append a row of a CSV file, given its times.
pub fn push_csv_line(out: &mut String, h: &Hit, modified: &str, created: &str, accessed: &str)
    ensures
        final(out)@ == old(out)@ + csv_line_of(h@, modified@, created@, accessed@),
{
    let ghost before = out@;
    let name = csv_field(h.name.as_str());
    let path = csv_field(h.path.as_str());
    let letters = attr_letters(h.attributes);
    out.append(name.as_str());
    out.push(',');
    out.append(path.as_str());
    out.push(',');
    if !(h.is_dir || h.size < 0) {
        push_decimal(out, h.size as u64);
    }
    assert(out@ =~= before + (field_of(h@.name) + seq![','] + field_of(h@.path) + seq![',']
        + csv_size(h@)));
    out.push(',');
    out.append(modified);
    out.push(',');
    out.append(created);
    out.push(',');
    out.append(accessed);
    out.push(',');
    out.append(letters.as_str());
    out.push('\n');
    assert(out@ =~= before + csv_line_of(h@, modified@, created@, accessed@));
}

/// Append a row of an EFU file.
pub fn push_efu_line(out: &mut String, h: &Hit)
    requires
        h.modified <= MAX_FILETIME_MS,
        h.created <= MAX_FILETIME_MS,
    ensures
        final(out)@ == old(out)@ + efu_line_of(h@),
{
    let ghost before = out@;
    let path = csv_field(h.path.as_str());
    out.append(path.as_str());
    out.push(',');
    let size: u64 = if h.is_dir || h.size < 0 {
        0
    } else {
        h.size as u64
    };
    push_decimal(out, size);
    out.push(',');
    push_decimal(out, ms_to_filetime(h.modified));
    out.push(',');
    push_decimal(out, ms_to_filetime(h.created));
    out.push(',');
    push_decimal(out, h.attributes as u64);
    out.push('\n');
    assert(out@ =~= before + efu_line_of(h@));
}

/// Whether every time of the rows has a FILETIME.
pub open spec fn in_filetime(hits: Seq<Hit>) -> bool {
    forall|i: int|
        0 <= i < hits.len() ==> (#[trigger] hits[i]).modified <= MAX_FILETIME_MS && hits[i].created
            <= MAX_FILETIME_MS
}

/// Whether the rows can be written in a format: an EFU file holds FILETIMEs.
pub fn can_export(hits: &Vec<Hit>, format: ExportFormat) -> (r: bool)
    ensures
        r == (format == ExportFormat::Efu ==> in_filetime(hits@)),
{
    if format != ExportFormat::Efu {
        return true;
    }
    let mut i: usize = 0;
    while i < hits.len()
        invariant
            i <= hits@.len(),
            format == ExportFormat::Efu,
            forall|k: int|
                0 <= k < i ==> (#[trigger] hits@[k]).modified <= MAX_FILETIME_MS && hits@[k].created
                    <= MAX_FILETIME_MS,
        decreases hits@.len() - i,
    {
        if hits[i].modified > MAX_FILETIME_MS || hits[i].created > MAX_FILETIME_MS {
            assert(!in_filetime(hits@)) by {
                assert(hits@[i as int].modified > MAX_FILETIME_MS || hits@[i as int].created
                    > MAX_FILETIME_MS);
            }
            return false;
        }
        i += 1;
    }
    true
}

/// The text of `hits` in the given format.
pub fn write_export(hits: &Vec<Hit>, format: ExportFormat) -> (r: String)
    requires
        format == ExportFormat::Efu ==> in_filetime(hits@),
    ensures
        exported(hit::rows(hits@), format, r@),
{
    match format {
        ExportFormat::Txt => write_txt(hits),
        ExportFormat::Csv => write_csv(hits),
        ExportFormat::Efu => write_efu(hits),
    }
}

fn write_txt(hits: &Vec<Hit>) -> (r: String)
    ensures
        r@ == txt_of(hit::rows(hits@)),
{
    let ghost rows = hit::rows(hits@);
    let mut out = String::new();
    let mut i: usize = 0;
    assert(out@ =~= txt_of(rows.take(0)));
    while i < hits.len()
        invariant
            i <= hits@.len(),
            rows == hit::rows(hits@),
            out@ == txt_of(rows.take(i as int)),
        decreases hits@.len() - i,
    {
        assert(rows.take(i + 1).drop_last() =~= rows.take(i as int));
        let ghost before = out@;
        out.append(hits[i].path.as_str());
        out.push('\n');
        assert(out@ =~= before + rows[i as int].path + seq!['\n']);
        i += 1;
    }
    assert(rows.take(i as int) =~= rows);
    out
}

fn write_csv(hits: &Vec<Hit>) -> (r: String)
    ensures
        exported(hit::rows(hits@), ExportFormat::Csv, r@),
{
    let ghost rows = hit::rows(hits@);
    let ghost mut times: Seq<Times> = Seq::empty();
    let mut out = String::new();
    out.append("Name,Path,Size,Date Modified,Date Created,Date Accessed,Attributes\n");
    let mut i: usize = 0;
    assert(out@ =~= csv_of(rows.take(0), times));
    while i < hits.len()
        invariant
            i <= hits@.len(),
            rows == hit::rows(hits@),
            times_shown(rows.take(i as int), times),
            out@ == csv_of(rows.take(i as int), times),
        decreases hits@.len() - i,
    {
        let modified = local_datetime(hits[i].modified);
        let created = local_datetime(hits[i].created);
        let accessed = local_datetime(hits[i].accessed);
        push_csv_line(&mut out, &hits[i], modified.as_str(), created.as_str(), accessed.as_str());
        proof {
            let before = times;
            times = times.push(
                Times { modified: modified@, created: created@, accessed: accessed@ },
            );
            assert(rows.take(i + 1).drop_last() =~= rows.take(i as int));
            lemma_csv_times(rows.take(i as int), before, times);
            assert forall|k: int| 0 <= k < i + 1 implies {
                let t = #[trigger] times[k];
                &&& time_shown(rows.take(i + 1)[k].modified, t.modified)
                &&& time_shown(rows.take(i + 1)[k].created, t.created)
                &&& time_shown(rows.take(i + 1)[k].accessed, t.accessed)
            } by {
                if k < i {
                    assert(before[k] == times[k]);
                    assert(rows.take(i as int)[k] == rows.take(i + 1)[k]);
                }
            }
        }
        i += 1;
    }
    assert(rows.take(i as int) =~= rows);
    out
}

proof fn lemma_csv_times(rows: Seq<HitView>, a: Seq<Times>, b: Seq<Times>)
    requires
        rows.len() <= a.len(),
        rows.len() <= b.len(),
        forall|i: int| 0 <= i < rows.len() ==> a[i] == b[i],
    ensures
        csv_of(rows, a) == csv_of(rows, b),
    decreases rows.len(),
{
    if rows.len() > 0 {
        lemma_csv_times(rows.drop_last(), a, b);
    }
}

fn write_efu(hits: &Vec<Hit>) -> (r: String)
    requires
        in_filetime(hits@),
    ensures
        r@ == efu_of(hit::rows(hits@)),
{
    let ghost rows = hit::rows(hits@);
    let mut out = String::new();
    out.append("Filename,Size,Date Modified,Date Created,Attributes\n");
    let mut i: usize = 0;
    assert(out@ =~= efu_of(rows.take(0)));
    while i < hits.len()
        invariant
            i <= hits@.len(),
            in_filetime(hits@),
            rows == hit::rows(hits@),
            out@ == efu_of(rows.take(i as int)),
        decreases hits@.len() - i,
    {
        assert(rows.take(i + 1).drop_last() =~= rows.take(i as int));
        assert(hits@[i as int].modified <= MAX_FILETIME_MS);
        push_efu_line(&mut out, &hits[i]);
        i += 1;
    }
    assert(rows.take(i as int) =~= rows);
    out
}

} // verus!
