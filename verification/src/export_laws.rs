//! Laws of exports: what a reader of the files finds in them.

use crate::dates;
use crate::dates::Day;
use crate::export;
use crate::export::{ExportFormat, Times};
use crate::hit;
use crate::hit::{Hit, HitView};
use crate::text;
use vstd::prelude::*;

verus! {

/// Where a reader of comma-separated values stands.
pub enum Mode {
    /// Outside quotes.
    Plain,
    /// Inside quotes.
    Quoted,
    /// Behind a quote inside quotes: their end, or half of a doubled one.
    Leaving,
}

/// What a reader of comma-separated values has read.
#[verifier::ext_equal]
pub struct Reader {
    /// The lines that have ended, as their fields.
    pub lines: Seq<Seq<Seq<char>>>,
    /// The fields that have ended on the line under way.
    pub fields: Seq<Seq<char>>,
    /// The field under way.
    pub field: Seq<char>,
    pub mode: Mode,
}

/// One more character outside quotes.
pub open spec fn read_plain(r: Reader, c: char) -> Reader {
    if c == ',' {
        Reader {
            lines: r.lines,
            fields: r.fields.push(r.field),
            field: Seq::empty(),
            mode: Mode::Plain,
        }
    } else if c == '\n' {
        Reader {
            lines: r.lines.push(r.fields.push(r.field)),
            fields: Seq::empty(),
            field: Seq::empty(),
            mode: Mode::Plain,
        }
    } else if c == '"' && r.field.len() == 0 {
        Reader { lines: r.lines, fields: r.fields, field: r.field, mode: Mode::Quoted }
    } else {
        Reader { lines: r.lines, fields: r.fields, field: r.field.push(c), mode: Mode::Plain }
    }
}

/// One more character.
pub open spec fn read_char(r: Reader, c: char) -> Reader {
    match r.mode {
        Mode::Plain => read_plain(r, c),
        Mode::Quoted => if c == '"' {
            Reader { lines: r.lines, fields: r.fields, field: r.field, mode: Mode::Leaving }
        } else {
            Reader { lines: r.lines, fields: r.fields, field: r.field.push(c), mode: Mode::Quoted }
        },
        Mode::Leaving => if c == '"' {
            Reader { lines: r.lines, fields: r.fields, field: r.field.push(c), mode: Mode::Quoted }
        } else {
            read_plain(r, c)
        },
    }
}

/// All the characters of a text.
pub open spec fn read_on(r: Reader, s: Seq<char>) -> Reader
    decreases s.len(),
{
    if s.len() == 0 {
        r
    } else {
        read_char(read_on(r, s.drop_last()), s.last())
    }
}

/// A reader at the start of a file.
pub open spec fn fresh() -> Reader {
    Reader { lines: Seq::empty(), fields: Seq::empty(), field: Seq::empty(), mode: Mode::Plain }
}

/// The lines of a file of comma-separated values, as their fields.
pub open spec fn table(s: Seq<char>) -> Seq<Seq<Seq<char>>> {
    read_on(fresh(), s).lines
}

proof fn lemma_append(r: Reader, a: Seq<char>, b: Seq<char>)
    ensures
        read_on(r, a + b) == read_on(read_on(r, a), b),
    decreases b.len(),
{
    if b.len() == 0 {
        assert(a + b =~= a);
    } else {
        assert((a + b).drop_last() =~= a + b.drop_last());
        lemma_append(r, a, b.drop_last());
    }
}

proof fn lemma_char(r: Reader, c: char)
    ensures
        read_on(r, seq![c]) == read_char(r, c),
{
    assert(seq![c].drop_last() =~= Seq::empty());
    reveal_with_fuel(read_on, 2);
}

/// Whether a text has nothing that a reader takes for more than itself.
pub open spec fn harmless(s: Seq<char>) -> bool {
    forall|i: int| 0 <= i < s.len() ==> (#[trigger] s[i]) != ',' && s[i] != '"' && s[i] != '\n'
}

proof fn lemma_harmless(r: Reader, s: Seq<char>)
    requires
        harmless(s),
        r.mode is Plain,
    ensures
        read_on(r, s) == (Reader {
            lines: r.lines,
            fields: r.fields,
            field: r.field + s,
            mode: Mode::Plain,
        }),
    decreases s.len(),
{
    if s.len() == 0 {
        assert(r.field + s =~= r.field);
    } else {
        let front = s.drop_last();
        assert forall|i: int| 0 <= i < front.len() implies (#[trigger] front[i]) != ',' && front[i]
            != '"' && front[i] != '\n' by {
            assert(front[i] == s[i]);
        }
        lemma_harmless(r, front);
        assert(s[s.len() - 1] == s.last());
        assert((r.field + front).push(s.last()) =~= r.field + s);
    }
}

proof fn lemma_quoted(r: Reader, s: Seq<char>)
    requires
        r.mode is Quoted,
        r.field.len() == 0,
    ensures
        read_on(r, export::doubled(s)) == (Reader {
            lines: r.lines,
            fields: r.fields,
            field: s,
            mode: Mode::Quoted,
        }),
    decreases s.len(),
{
    if s.len() == 0 {
        assert(r.field =~= s);
    } else {
        let front = s.drop_last();
        lemma_quoted(r, front);
        let d = export::doubled(front);
        assert(front.push(s.last()) =~= s);
        if s.last() == '"' {
            assert(d.push('"').push('"').drop_last() =~= d.push('"'));
            assert(d.push('"').drop_last() =~= d);
            let half = read_on(r, d.push('"'));
            assert(half == read_char(read_on(r, d), '"'));
            assert(half.mode is Leaving && half.field == front);
            assert(read_on(r, d.push('"').push('"')) == read_char(half, '"'));
        } else {
            assert(d.push(s.last()).drop_last() =~= d);
            assert(read_on(r, d.push(s.last())) == read_char(read_on(r, d), s.last()));
        }
    }
}

/// A field that was written, and the character that ends it.
proof fn lemma_field(r: Reader, s: Seq<char>, end: char)
    requires
        r.mode is Plain,
        r.field.len() == 0,
        end == ',' || end == '\n',
    ensures
        read_on(r, export::field_of(s).push(end)) == read_plain(
            Reader { lines: r.lines, fields: r.fields, field: s, mode: Mode::Plain },
            end,
        ),
{
    let f = export::field_of(s);
    assert(f.push(end).drop_last() =~= f);
    if export::needs_quotes(s) {
        let q = seq!['"'];
        lemma_char(r, '"');
        lemma_append(r, q, export::doubled(s));
        lemma_quoted(read_on(r, q), s);
        assert(f.drop_last() =~= q + export::doubled(s));
        let inside = read_on(r, f.drop_last());
        assert(inside.mode is Quoted && inside.field == s);
        assert(f.last() == '"');
        let after = read_on(r, f);
        assert(after == read_char(inside, '"'));
        assert(after.mode is Leaving && after.field == s);
        assert(f.push(end).last() == end);
        assert(read_on(r, f.push(end)) == read_char(after, end));
    } else {
        assert forall|i: int| 0 <= i < s.len() implies (#[trigger] s[i]) != ',' && s[i] != '"'
            && s[i] != '\n' by {
            assert(s.contains(s[i]));
        }
        lemma_harmless(r, s);
        assert(r.field + s =~= s);
    }
}

/// A harmless field, and the character that ends it.
proof fn lemma_plain_field(r: Reader, s: Seq<char>, end: char)
    requires
        r.mode is Plain,
        r.field.len() == 0,
        harmless(s),
        end == ',' || end == '\n',
    ensures
        read_on(r, s.push(end)) == read_plain(
            Reader { lines: r.lines, fields: r.fields, field: s, mode: Mode::Plain },
            end,
        ),
{
    assert(s.push(end).drop_last() =~= s);
    lemma_harmless(r, s);
    assert(r.field + s =~= s);
}

proof fn lemma_digit(n: int)
    requires
        0 <= n < 10,
    ensures
        text::is_digit(text::digit(n)),
        text::digit(n) as u32 - '0' as u32 == n,
{
}

/// A numeral holds the digits of its number and is harmless.
pub proof fn law_decimal(n: nat)
    ensures
        text::is_numeral(text::decimal(n)),
        text::digits_value(text::decimal(n)) == n,
        harmless(text::decimal(n)),
    decreases n,
{
    lemma_digit((n % 10) as int);
    let last = text::digit((n % 10) as int);
    let s = text::decimal(n);
    if n < 10 {
        assert(s.drop_last() =~= Seq::empty());
        assert(text::digits_value(Seq::<char>::empty()) == 0);
        assert(s.last() == last);
    } else {
        law_decimal(n / 10);
        let front = text::decimal(n / 10);
        assert(s.drop_last() =~= front);
        assert forall|i: int| 0 <= i < s.len() implies text::is_digit(#[trigger] s[i]) by {
            if i < front.len() {
                assert(s[i] == front[i]);
            }
        }
    }
    assert forall|i: int| 0 <= i < s.len() implies (#[trigger] s[i]) != ',' && s[i] != '"' && s[i]
        != '\n' by {
        assert(text::is_digit(s[i]));
    }
}

/// The number that two digits stand for.
pub open spec fn pair(s: Seq<char>, i: int) -> int {
    (s[i] as u32 - '0' as u32) * 10 + (s[i + 1] as u32 - '0' as u32)
}

proof fn lemma_pair(n: int)
    requires
        0 <= n < 100,
    ensures
        export::two_digits(n).len() == 2,
        pair(export::two_digits(n), 0) == n,
        text::is_digit(export::two_digits(n)[0]),
        text::is_digit(export::two_digits(n)[1]),
        harmless(export::two_digits(n)),
{
    lemma_digit(n / 10);
    lemma_digit(n % 10);
}

proof fn lemma_harmless_both(a: Seq<char>, b: Seq<char>)
    requires
        harmless(a),
        harmless(b),
    ensures
        harmless(a + b),
{
    assert forall|i: int| 0 <= i < (a + b).len() implies (#[trigger] (a + b)[i]) != ',' && (a
        + b)[i] != '"' && (a + b)[i] != '\n' by {
        if i < a.len() {
            assert((a + b)[i] == a[i]);
        } else {
            assert((a + b)[i] == b[i - a.len()]);
        }
    }
}

proof fn lemma_year_harmless(y: int)
    ensures
        harmless(export::year_text(y)),
{
    let n = if y < 0 {
        -y
    } else {
        y
    };
    let sign: Seq<char> = if y < 0 {
        seq!['-']
    } else if y > 9999 {
        seq!['+']
    } else {
        Seq::empty()
    };
    assert(harmless(sign));
    if n < 10_000 {
        lemma_pair(n / 100);
        lemma_pair(n % 100);
        lemma_harmless_both(export::two_digits(n / 100), export::two_digits(n % 100));
        lemma_harmless_both(
            sign,
            export::two_digits(n / 100) + export::two_digits(n % 100),
        );
    } else {
        law_decimal(n as nat);
        lemma_harmless_both(sign, text::decimal(n as nat));
    }
}

proof fn lemma_clock_harmless(day: Day, second: int)
    requires
        0 <= day.month < 100,
        0 <= day.day < 100,
        0 <= second < 86_400,
    ensures
        harmless(export::clock_text(day, second)),
{
    let (dash, space, colon) = (seq!['-'], seq![' '], seq![':']);
    let y = export::year_text(day.year as int);
    let m = export::two_digits(day.month as int);
    let d = export::two_digits(day.day as int);
    let h = export::two_digits(second / 3600);
    let i = export::two_digits(second / 60 % 60);
    let s = export::two_digits(second % 60);
    lemma_year_harmless(day.year as int);
    lemma_pair(day.month as int);
    lemma_pair(day.day as int);
    lemma_pair(second / 3600);
    lemma_pair(second / 60 % 60);
    lemma_pair(second % 60);
    lemma_harmless_both(y, dash);
    lemma_harmless_both(y + dash, m);
    lemma_harmless_both(y + dash + m, dash);
    lemma_harmless_both(y + dash + m + dash, d);
    lemma_harmless_both(y + dash + m + dash + d, space);
    lemma_harmless_both(y + dash + m + dash + d + space, h);
    lemma_harmless_both(y + dash + m + dash + d + space + h, colon);
    lemma_harmless_both(y + dash + m + dash + d + space + h + colon, i);
    lemma_harmless_both(y + dash + m + dash + d + space + h + colon + i, colon);
    lemma_harmless_both(y + dash + m + dash + d + space + h + colon + i + colon, s);
}

/// The characters of six groups of digits with the signs between them.
#[verifier::rlimit(40)]
proof fn lemma_clock_chars(
    y: Seq<char>,
    m: Seq<char>,
    d: Seq<char>,
    h: Seq<char>,
    i: Seq<char>,
    s: Seq<char>,
)
    requires
        y.len() == 4,
        m.len() == 2,
        d.len() == 2,
        h.len() == 2,
        i.len() == 2,
        s.len() == 2,
    ensures
        y + seq!['-'] + m + seq!['-'] + d + seq![' '] + h + seq![':'] + i + seq![':'] + s =~= seq![
            y[0],
            y[1],
            y[2],
            y[3],
            '-',
            m[0],
            m[1],
            '-',
            d[0],
            d[1],
            ' ',
            h[0],
            h[1],
            ':',
            i[0],
            i[1],
            ':',
            s[0],
            s[1],
        ],
{
    let a = y + seq!['-'] + m + seq!['-'] + d;
    assert(a =~= seq![y[0], y[1], y[2], y[3], '-', m[0], m[1], '-', d[0], d[1]]);
    let b = h + seq![':'] + i + seq![':'] + s;
    assert(b =~= seq![h[0], h[1], ':', i[0], i[1], ':', s[0], s[1]]);
    assert(a + seq![' '] + h + seq![':'] + i + seq![':'] + s =~= a + seq![' '] + b);
    assert(a + seq![' '] + b =~= seq![
        y[0],
        y[1],
        y[2],
        y[3],
        '-',
        m[0],
        m[1],
        '-',
        d[0],
        d[1],
        ' ',
        h[0],
        h[1],
        ':',
        i[0],
        i[1],
        ':',
        s[0],
        s[1],
    ]);
}

/// A time in a file says, for a year from 0 to 9999, the four digits of the year, then
/// behind a dash each the month and the day, behind a space the hour and behind a colon
/// each the minute and the second.
#[verifier::rlimit(40)]
pub proof fn law_clock_text(day: Day, second: int)
    requires
        0 <= day.year <= 9999,
        1 <= day.month <= 12,
        1 <= day.day <= 31,
        0 <= second < 86_400,
    ensures
        ({
            let t = export::clock_text(day, second);
            &&& t.len() == 19
            &&& pair(t, 0) * 100 + pair(t, 2) == day.year
            &&& t[4] == '-' && pair(t, 5) == day.month
            &&& t[7] == '-' && pair(t, 8) == day.day
            &&& t[10] == ' ' && t[13] == ':' && t[16] == ':'
            &&& pair(t, 11) * 3600 + pair(t, 14) * 60 + pair(t, 17) == second
            &&& pair(t, 14) < 60 && pair(t, 17) < 60
        }),
{
    let y = day.year as int;
    lemma_pair(y / 100);
    lemma_pair(y % 100);
    lemma_pair(day.month as int);
    lemma_pair(day.day as int);
    lemma_pair(second / 3600);
    lemma_pair(second / 60 % 60);
    lemma_pair(second % 60);
    let year = export::year_text(y);
    assert(year =~= export::two_digits(y / 100) + export::two_digits(y % 100));
    lemma_clock_chars(
        year,
        export::two_digits(day.month as int),
        export::two_digits(day.day as int),
        export::two_digits(second / 3600),
        export::two_digits(second / 60 % 60),
        export::two_digits(second % 60),
    );
}

proof fn lemma_time_harmless(ms: i64, t: Seq<char>)
    requires
        export::time_shown(ms, t),
    ensures
        harmless(t),
{
    if t.len() > 0 {
        let (day, second) = choose|day: Day, second: u32| #[trigger]
            export::clock_reads(ms, Some((day, second))) && export::on_some_clock(
                ms as int,
                day,
                second as int,
            ) && t == export::clock_text(day, second as int);
        let offset = choose|offset: int|
            export::clock_shows(ms as int, offset, day, second as int);
        lemma_clock_harmless(day, second as int);
    }
}

proof fn lemma_letters_harmless(a: u32)
    ensures
        harmless(export::letters_of(a)),
{
    assert(forall|bit: u32, c: char|
        c != ',' && c != '"' && c != '\n' ==> harmless(#[trigger] export::letter(a, bit, c)));
    let s1 = export::letter(a, 0x1, 'R');
    let s2 = s1 + export::letter(a, 0x2, 'H');
    lemma_harmless_both(s1, export::letter(a, 0x2, 'H'));
    let s3 = s2 + export::letter(a, 0x4, 'S');
    lemma_harmless_both(s2, export::letter(a, 0x4, 'S'));
    let s4 = s3 + export::letter(a, 0x20, 'A');
    lemma_harmless_both(s3, export::letter(a, 0x20, 'A'));
    let s5 = s4 + export::letter(a, 0x10, 'D');
    lemma_harmless_both(s4, export::letter(a, 0x10, 'D'));
    let s6 = s5 + export::letter(a, 0x400, 'L');
    lemma_harmless_both(s5, export::letter(a, 0x400, 'L'));
    let s7 = s6 + export::letter(a, 0x200, 'P');
    lemma_harmless_both(s6, export::letter(a, 0x200, 'P'));
    let s8 = s7 + export::letter(a, 0x800, 'C');
    lemma_harmless_both(s7, export::letter(a, 0x800, 'C'));
    let s9 = s8 + export::letter(a, 0x4000, 'E');
    lemma_harmless_both(s8, export::letter(a, 0x4000, 'E'));
    let s10 = s9 + export::letter(a, 0x100, 'T');
    lemma_harmless_both(s9, export::letter(a, 0x100, 'T'));
    let s11 = s10 + export::letter(a, 0x1000, 'O');
    lemma_harmless_both(s10, export::letter(a, 0x1000, 'O'));
    lemma_harmless_both(s11, export::letter(a, 0x2000, 'I'));
}

/// The size column of a row: the digits of the size of a file, and nothing where there
/// is none.
pub open spec fn shows_size(h: HitView, s: Seq<char>) -> bool {
    if h.is_dir || h.size < 0 {
        s.len() == 0
    } else {
        text::is_numeral(s) && text::digits_value(s) == h.size
    }
}

/// The seven fields that a reader finds on a line.
#[verifier::rlimit(40)]
proof fn lemma_csv_line(r: Reader, h: HitView, m: Seq<char>, c: Seq<char>, a: Seq<char>)
    requires
        r.mode is Plain,
        r.field.len() == 0,
        r.fields.len() == 0,
        harmless(m) && harmless(c) && harmless(a),
    ensures
        ({
            let end = read_on(r, export::csv_line_of(h, m, c, a));
            &&& end.mode is Plain && end.field.len() == 0 && end.fields.len() == 0
            &&& end.lines.drop_last() == r.lines
            &&& end.lines.len() == r.lines.len() + 1
            &&& end.lines.last() =~= seq![
                h.name,
                h.path,
                export::csv_size(h),
                m,
                c,
                a,
                export::letters_of(h.attributes),
            ]
            &&& shows_size(h, export::csv_size(h))
        }),
{
    let size = export::csv_size(h);
    let letters = export::letters_of(h.attributes);
    if !(h.is_dir || h.size < 0) {
        law_decimal(h.size as nat);
    }
    lemma_letters_harmless(h.attributes);
    let f1 = export::field_of(h.name).push(',');
    let f2 = export::field_of(h.path).push(',');
    let f3 = size.push(',');
    let f4 = m.push(',');
    let f5 = c.push(',');
    let f6 = a.push(',');
    let f7 = letters.push('\n');
    let whole = f1 + f2 + f3 + f4 + f5 + f6 + f7;
    assert(export::csv_line_of(h, m, c, a) =~= whole);
    let r1 = read_on(r, f1);
    lemma_field(r, h.name, ',');
    let r2 = read_on(r1, f2);
    lemma_field(r1, h.path, ',');
    let r3 = read_on(r2, f3);
    lemma_plain_field(r2, size, ',');
    let r4 = read_on(r3, f4);
    lemma_plain_field(r3, m, ',');
    let r5 = read_on(r4, f5);
    lemma_plain_field(r4, c, ',');
    let r6 = read_on(r5, f6);
    lemma_plain_field(r5, a, ',');
    lemma_plain_field(r6, letters, '\n');
    lemma_append(r, f1 + f2 + f3 + f4 + f5 + f6, f7);
    lemma_append(r, f1 + f2 + f3 + f4 + f5, f6);
    lemma_append(r, f1 + f2 + f3 + f4, f5);
    lemma_append(r, f1 + f2 + f3, f4);
    lemma_append(r, f1 + f2, f3);
    lemma_append(r, f1, f2);
    let end = read_on(r, whole);
    assert(end.lines.drop_last() =~= r.lines);
}

/// The names of the columns of a CSV file.
pub open spec fn csv_columns() -> Seq<Seq<char>> {
    seq![
        "Name"@,
        "Path"@,
        "Size"@,
        "Date Modified"@,
        "Date Created"@,
        "Date Accessed"@,
        "Attributes"@,
    ]
}

#[verifier::rlimit(40)]
proof fn lemma_csv_header()
    ensures
        read_on(
            fresh(),
            "Name,Path,Size,Date Modified,Date Created,Date Accessed,Attributes\n"@,
        ) == (Reader {
            lines: seq![csv_columns()],
            fields: Seq::empty(),
            field: Seq::empty(),
            mode: Mode::Plain,
        }),
{
    reveal_strlit("Name");
    reveal_strlit("Path");
    reveal_strlit("Size");
    reveal_strlit("Date Modified");
    reveal_strlit("Date Created");
    reveal_strlit("Date Accessed");
    reveal_strlit("Attributes");
    reveal_strlit("Name,Path,Size,Date Modified,Date Created,Date Accessed,Attributes\n");
    let f1 = "Name"@.push(',');
    let f2 = "Path"@.push(',');
    let f3 = "Size"@.push(',');
    let f4 = "Date Modified"@.push(',');
    let f5 = "Date Created"@.push(',');
    let f6 = "Date Accessed"@.push(',');
    let f7 = "Attributes"@.push('\n');
    assert("Name,Path,Size,Date Modified,Date Created,Date Accessed,Attributes\n"@ =~= f1 + f2 + f3
        + f4 + f5 + f6 + f7);
    let r = fresh();
    let r1 = read_on(r, f1);
    lemma_plain_field(r, "Name"@, ',');
    let r2 = read_on(r1, f2);
    lemma_plain_field(r1, "Path"@, ',');
    let r3 = read_on(r2, f3);
    lemma_plain_field(r2, "Size"@, ',');
    let r4 = read_on(r3, f4);
    lemma_plain_field(r3, "Date Modified"@, ',');
    let r5 = read_on(r4, f5);
    lemma_plain_field(r4, "Date Created"@, ',');
    let r6 = read_on(r5, f6);
    lemma_plain_field(r5, "Date Accessed"@, ',');
    lemma_plain_field(r6, "Attributes"@, '\n');
    lemma_append(r, f1 + f2 + f3 + f4 + f5 + f6, f7);
    lemma_append(r, f1 + f2 + f3 + f4 + f5, f6);
    lemma_append(r, f1 + f2 + f3 + f4, f5);
    lemma_append(r, f1 + f2 + f3, f4);
    lemma_append(r, f1 + f2, f3);
    lemma_append(r, f1, f2);
    let end = read_on(r, f1 + f2 + f3 + f4 + f5 + f6 + f7);
    assert(r6.fields.push("Attributes"@) =~= csv_columns());
    assert(end.lines =~= seq![csv_columns()]);
}

/// What a reader finds on the lines of a CSV file.
#[verifier::rlimit(40)]
proof fn lemma_csv(rows: Seq<HitView>, times: Seq<Times>)
    requires
        times.len() >= rows.len(),
        forall|i: int|
            0 <= i < rows.len() ==> {
                let t = #[trigger] times[i];
                harmless(t.modified) && harmless(t.created) && harmless(t.accessed)
            },
    ensures
        ({
            let end = read_on(fresh(), export::csv_of(rows, times));
            &&& end.mode is Plain && end.field.len() == 0 && end.fields.len() == 0
            &&& end.lines.len() == rows.len() + 1
            &&& end.lines[0] == csv_columns()
            &&& forall|i: int|
                0 <= i < rows.len() ==> #[trigger] end.lines[i + 1] == seq![
                    rows[i].name,
                    rows[i].path,
                    export::csv_size(rows[i]),
                    times[i].modified,
                    times[i].created,
                    times[i].accessed,
                    export::letters_of(rows[i].attributes),
                ]
        }),
    decreases rows.len(),
{
    if rows.len() == 0 {
        lemma_csv_header();
    } else {
        let n = rows.len() - 1;
        let front = rows.drop_last();
        let t = times[n];
        assert forall|i: int| 0 <= i < front.len() implies {
            let t = #[trigger] times[i];
            harmless(t.modified) && harmless(t.created) && harmless(t.accessed)
        } by {
            assert(0 <= i < rows.len());
        }
        lemma_csv(front, times);
        let before = export::csv_of(front, times);
        let line = export::csv_line_of(rows.last(), t.modified, t.created, t.accessed);
        lemma_append(fresh(), before, line);
        let mid = read_on(fresh(), before);
        lemma_csv_line(mid, rows.last(), t.modified, t.created, t.accessed);
        let end = read_on(fresh(), export::csv_of(rows, times));
        assert forall|i: int| 0 <= i < rows.len() implies #[trigger] end.lines[i + 1] == seq![
            rows[i].name,
            rows[i].path,
            export::csv_size(rows[i]),
            times[i].modified,
            times[i].created,
            times[i].accessed,
            export::letters_of(rows[i].attributes),
        ] by {
            if i < n {
                assert(end.lines.drop_last()[i + 1] == mid.lines[i + 1]);
                assert(front[i] == rows[i]);
            }
        }
        assert(end.lines.drop_last()[0] == mid.lines[0]);
    }
}

/// What a column of a CSV file says of a row.
pub open spec fn column_shows(column: Seq<char>, h: HitView, s: Seq<char>) -> bool {
    &&& column == "Name"@ ==> s == h.name
    &&& column == "Path"@ ==> s == h.path
    &&& column == "Size"@ ==> shows_size(h, s)
    &&& column == "Date Modified"@ ==> export::time_shown(h.modified, s)
    &&& column == "Date Created"@ ==> export::time_shown(h.created, s)
    &&& column == "Date Accessed"@ ==> export::time_shown(h.accessed, s)
    &&& column == "Attributes"@ ==> s == export::letters_of(h.attributes)
}

proof fn lemma_columns_differ()
    ensures
        forall|i: int, j: int|
            0 <= i < 7 && 0 <= j < 7 && i != j ==> #[trigger] csv_columns()[i]
                != #[trigger] csv_columns()[j],
{
    reveal_strlit("Name");
    reveal_strlit("Path");
    reveal_strlit("Size");
    reveal_strlit("Date Modified");
    reveal_strlit("Date Created");
    reveal_strlit("Date Accessed");
    reveal_strlit("Attributes");
    assert("Name"@[0] != "Path"@[0] && "Name"@[0] != "Size"@[0] && "Path"@[0] != "Size"@[0]);
    assert("Date Modified"@[5] != "Date Accessed"@[5]);
    assert("Date Created"@.len() == 12 && "Date Accessed"@.len() == 13 && "Date Modified"@.len()
        == 13 && "Attributes"@.len() == 10 && "Name"@.len() == 4 && "Path"@.len() == 4
        && "Size"@.len() == 4);
}

proof fn lemma_line_shows(h: HitView, t: Times, k: int)
    requires
        0 <= k < 7,
        export::time_shown(h.modified, t.modified),
        export::time_shown(h.created, t.created),
        export::time_shown(h.accessed, t.accessed),
    ensures
        column_shows(
            csv_columns()[k],
            h,
            seq![
                h.name,
                h.path,
                export::csv_size(h),
                t.modified,
                t.created,
                t.accessed,
                export::letters_of(h.attributes),
            ][k],
        ),
{
    lemma_columns_differ();
    if !(h.is_dir || h.size < 0) {
        law_decimal(h.size as nat);
    }
    let c = csv_columns();
    assert(c[0] == "Name"@ && c[1] == "Path"@ && c[2] == "Size"@ && c[3] == "Date Modified"@
        && c[4] == "Date Created"@ && c[5] == "Date Accessed"@ && c[6] == "Attributes"@);
}

/// A reader of a CSV export finds a header of seven columns and below it one line for
/// each row, in order, and on that line in each column what the header names there.
#[verifier::rlimit(40)]
pub proof fn law_csv_columns(rows: Seq<HitView>, out: Seq<char>, i: int, k: int)
    requires
        export::exported(rows, ExportFormat::Csv, out),
        0 <= i < rows.len(),
        0 <= k < 7,
    ensures
        table(out).len() == rows.len() + 1,
        table(out)[0] == csv_columns(),
        table(out)[i + 1].len() == 7,
        column_shows(table(out)[0][k], rows[i], table(out)[i + 1][k]),
{
    let times = choose|times: Seq<Times>| #[trigger]
        export::times_shown(rows, times) && out == export::csv_of(rows, times);
    assert forall|j: int| 0 <= j < rows.len() implies {
        let t = #[trigger] times[j];
        harmless(t.modified) && harmless(t.created) && harmless(t.accessed)
    } by {
        lemma_time_harmless(rows[j].modified, times[j].modified);
        lemma_time_harmless(rows[j].created, times[j].created);
        lemma_time_harmless(rows[j].accessed, times[j].accessed);
    }
    lemma_csv(rows, times);
    lemma_line_shows(rows[i], times[i], k);
}

/// The names of the columns of an EFU file.
pub open spec fn efu_columns() -> Seq<Seq<char>> {
    seq!["Filename"@, "Size"@, "Date Modified"@, "Date Created"@, "Attributes"@]
}

proof fn lemma_efu_header()
    ensures
        read_on(fresh(), "Filename,Size,Date Modified,Date Created,Attributes\n"@) == (Reader {
            lines: seq![efu_columns()],
            fields: Seq::empty(),
            field: Seq::empty(),
            mode: Mode::Plain,
        }),
{
    reveal_strlit("Filename");
    reveal_strlit("Size");
    reveal_strlit("Date Modified");
    reveal_strlit("Date Created");
    reveal_strlit("Attributes");
    reveal_strlit("Filename,Size,Date Modified,Date Created,Attributes\n");
    let f1 = "Filename"@.push(',');
    let f2 = "Size"@.push(',');
    let f3 = "Date Modified"@.push(',');
    let f4 = "Date Created"@.push(',');
    let f5 = "Attributes"@.push('\n');
    assert("Filename,Size,Date Modified,Date Created,Attributes\n"@ =~= f1 + f2 + f3 + f4 + f5);
    let r = fresh();
    let r1 = read_on(r, f1);
    lemma_plain_field(r, "Filename"@, ',');
    let r2 = read_on(r1, f2);
    lemma_plain_field(r1, "Size"@, ',');
    let r3 = read_on(r2, f3);
    lemma_plain_field(r2, "Date Modified"@, ',');
    let r4 = read_on(r3, f4);
    lemma_plain_field(r3, "Date Created"@, ',');
    lemma_plain_field(r4, "Attributes"@, '\n');
    lemma_append(r, f1 + f2 + f3 + f4, f5);
    lemma_append(r, f1 + f2 + f3, f4);
    lemma_append(r, f1 + f2, f3);
    lemma_append(r, f1, f2);
    let end = read_on(r, f1 + f2 + f3 + f4 + f5);
    assert(r4.fields.push("Attributes"@) =~= efu_columns());
    assert(end.lines =~= seq![efu_columns()]);
}

/// Whether a text is the digits of a number.
pub open spec fn shows_number(s: Seq<char>, n: int) -> bool {
    text::is_numeral(s) && text::digits_value(s) == n
}

/// What stands on a line of an EFU file: the path, the size or 0, the FILETIMEs of the
/// modification and the creation, and the attributes as a number.
pub open spec fn efu_line_shows(line: Seq<Seq<char>>, h: HitView) -> bool {
    &&& line.len() == 5
    &&& line[0] == h.path
    &&& shows_number(
        line[1],
        if h.is_dir || h.size < 0 {
            0
        } else {
            h.size as int
        },
    )
    &&& shows_number(line[2], export::filetime_of(h.modified as int))
    &&& shows_number(line[3], export::filetime_of(h.created as int))
    &&& shows_number(line[4], h.attributes as int)
}

proof fn lemma_efu_line(r: Reader, h: HitView)
    requires
        r.mode is Plain,
        r.field.len() == 0,
        r.fields.len() == 0,
    ensures
        ({
            let end = read_on(r, export::efu_line_of(h));
            &&& end.mode is Plain && end.field.len() == 0 && end.fields.len() == 0
            &&& end.lines.drop_last() == r.lines
            &&& end.lines.len() == r.lines.len() + 1
            &&& efu_line_shows(end.lines.last(), h)
        }),
{
    let size = export::efu_size_of(h);
    let m = export::filetime_of(h.modified as int) as nat;
    let c = export::filetime_of(h.created as int) as nat;
    let a = h.attributes as nat;
    law_decimal(size);
    law_decimal(m);
    law_decimal(c);
    law_decimal(a);
    let f1 = export::field_of(h.path).push(',');
    let f2 = text::decimal(size).push(',');
    let f3 = text::decimal(m).push(',');
    let f4 = text::decimal(c).push(',');
    let f5 = text::decimal(a).push('\n');
    assert(export::efu_line_of(h) =~= f1 + f2 + f3 + f4 + f5);
    let r1 = read_on(r, f1);
    lemma_field(r, h.path, ',');
    let r2 = read_on(r1, f2);
    lemma_plain_field(r1, text::decimal(size), ',');
    let r3 = read_on(r2, f3);
    lemma_plain_field(r2, text::decimal(m), ',');
    let r4 = read_on(r3, f4);
    lemma_plain_field(r3, text::decimal(c), ',');
    lemma_plain_field(r4, text::decimal(a), '\n');
    lemma_append(r, f1 + f2 + f3 + f4, f5);
    lemma_append(r, f1 + f2 + f3, f4);
    lemma_append(r, f1 + f2, f3);
    lemma_append(r, f1, f2);
    let end = read_on(r, f1 + f2 + f3 + f4 + f5);
    assert(end.lines.drop_last() =~= r.lines);
}

#[verifier::rlimit(40)]
proof fn lemma_efu(rows: Seq<HitView>)
    ensures
        ({
            let end = read_on(fresh(), export::efu_of(rows));
            &&& end.mode is Plain && end.field.len() == 0 && end.fields.len() == 0
            &&& end.lines.len() == rows.len() + 1
            &&& end.lines[0] == efu_columns()
            &&& forall|i: int|
                0 <= i < rows.len() ==> efu_line_shows(#[trigger] end.lines[i + 1], rows[i])
        }),
    decreases rows.len(),
{
    if rows.len() == 0 {
        lemma_efu_header();
    } else {
        let n = rows.len() - 1;
        let front = rows.drop_last();
        lemma_efu(front);
        let before = export::efu_of(front);
        lemma_append(fresh(), before, export::efu_line_of(rows.last()));
        let mid = read_on(fresh(), before);
        lemma_efu_line(mid, rows.last());
        let end = read_on(fresh(), export::efu_of(rows));
        assert forall|i: int| 0 <= i < rows.len() implies efu_line_shows(
            #[trigger] end.lines[i + 1],
            rows[i],
        ) by {
            if i < n {
                assert(end.lines.drop_last()[i + 1] == mid.lines[i + 1]);
                assert(front[i] == rows[i]);
                assert(efu_line_shows(mid.lines[i + 1], front[i]));
            }
        }
        assert(end.lines.drop_last()[0] == mid.lines[0]);
    }
}

/// A reader of an EFU export finds the header and below it one line for each row, in
/// order, with the path, the size, the two FILETIMEs and the attributes.
pub proof fn law_efu_columns(rows: Seq<HitView>, out: Seq<char>, i: int)
    requires
        export::exported(rows, ExportFormat::Efu, out),
        0 <= i < rows.len(),
    ensures
        table(out).len() == rows.len() + 1,
        table(out)[0] == efu_columns(),
        efu_line_shows(table(out)[i + 1], rows[i]),
{
    lemma_efu(rows);
}

/// A FILETIME of a time after 1601, which lies 134774 days before 1970, counts its
/// milliseconds in steps of 100 ns; no time is 0, and so is an earlier one.
pub proof fn law_filetime_written(ms: i64)
    ensures
        ms == 0 || ms + 134_774 * 86_400_000 < 0 ==> export::filetime_of(ms as int) == 0,
        ms != 0 && ms + 134_774 * 86_400_000 >= 0 ==> export::filetime_of(ms as int) == (ms + 134_774 * 86_400_000) * 10_000,
{
}

/// The lines of a text, each ended by a line feed.
pub open spec fn lines_of(s: Seq<char>, cur: Seq<char>) -> Seq<Seq<char>>
    decreases s.len(),
{
    if s.len() == 0 {
        Seq::empty()
    } else if s[0] == '\n' {
        seq![cur] + lines_of(s.drop_first(), Seq::empty())
    } else {
        lines_of(s.drop_first(), cur.push(s[0]))
    }
}

proof fn lemma_line(p: Seq<char>, rest: Seq<char>, cur: Seq<char>)
    requires
        !p.contains('\n'),
    ensures
        lines_of(p + seq!['\n'] + rest, cur) == seq![cur + p] + lines_of(rest, Seq::empty()),
    decreases p.len(),
{
    let s = p + seq!['\n'] + rest;
    if p.len() == 0 {
        assert(s[0] == '\n');
        assert(s.drop_first() =~= rest);
        assert(cur + p =~= cur);
    } else {
        let t = p.drop_first();
        assert(s[0] == p[0]);
        assert(p.contains(p[0]));
        assert(!t.contains('\n')) by {
            if t.contains('\n') {
                let i = choose|i: int| 0 <= i < t.len() && t[i] == '\n';
                assert(p[i + 1] == '\n');
            }
        }
        assert(s.drop_first() =~= t + seq!['\n'] + rest);
        lemma_line(t, rest, cur.push(p[0]));
        assert(cur.push(p[0]) + t =~= cur + p);
    }
}

proof fn lemma_txt(rows: Seq<HitView>, rest: Seq<char>)
    requires
        forall|i: int| 0 <= i < rows.len() ==> !(#[trigger] rows[i]).path.contains('\n'),
    ensures
        lines_of(export::txt_of(rows) + rest, Seq::empty()) == rows.map_values(
            |h: HitView| h.path,
        ) + lines_of(rest, Seq::empty()),
    decreases rows.len(),
{
    let none = Seq::<char>::empty();
    let paths = rows.map_values(|h: HitView| h.path);
    if rows.len() == 0 {
        assert(export::txt_of(rows) + rest =~= rest);
        assert(paths + lines_of(rest, none) =~= lines_of(rest, none));
    } else {
        let front = rows.drop_last();
        let p = rows.last().path;
        assert(rows[rows.len() - 1] == rows.last());
        assert forall|i: int| 0 <= i < front.len() implies !(#[trigger] front[i]).path.contains(
            '\n',
        ) by {
            assert(front[i] == rows[i]);
        }
        let more = p + seq!['\n'] + rest;
        lemma_txt(front, more);
        assert(export::txt_of(rows) + rest =~= export::txt_of(front) + more);
        lemma_line(p, rest, none);
        assert(none + p =~= p);
        assert(front.map_values(|h: HitView| h.path) + (seq![p] + lines_of(rest, none)) =~= paths
            + lines_of(rest, none));
    }
}

/// A text export holds the paths of the rows, one on each line, in order.
pub proof fn law_txt_lines(rows: Seq<HitView>, out: Seq<char>)
    requires
        export::exported(rows, ExportFormat::Txt, out),
        forall|i: int| 0 <= i < rows.len() ==> !(#[trigger] rows[i]).path.contains('\n'),
    ensures
        lines_of(out, Seq::empty()) == rows.map_values(|h: HitView| h.path),
{
    let none = Seq::<char>::empty();
    lemma_txt(rows, none);
    assert(out + none =~= out);
    assert(lines_of(none, none) =~= Seq::empty());
    let paths = rows.map_values(|h: HitView| h.path);
    assert(paths + Seq::<Seq<char>>::empty() =~= paths);
}

/// The attributes in Explorer's order, with their letters and bits.
pub open spec fn letter_table() -> Seq<(char, u32)> {
    seq![
        ('R', 0u32),
        ('H', 1),
        ('S', 2),
        ('A', 5),
        ('D', 4),
        ('L', 10),
        ('P', 9),
        ('C', 11),
        ('E', 14),
        ('T', 8),
        ('O', 12),
        ('I', 13),
    ]
}

proof fn lemma_next_letter(attrs: u32, n: nat, c: char, k: u32, bit: u32)
    requires
        n < 12,
        letter_table()[n as int] == (c, k),
        1u32 << k == bit,
    ensures
        letters_listed(attrs, n + 1) == letters_listed(attrs, n) + export::letter(attrs, bit, c),
{
    let before = letters_listed(attrs, n);
    assert(before.push(c) =~= before + seq![c]);
    assert(before + Seq::<char>::empty() =~= before);
}

proof fn lemma_letter_table()
    ensures
        letter_table()[0] == ('R', 0u32),
        letter_table()[1] == ('H', 1u32),
        letter_table()[2] == ('S', 2u32),
        letter_table()[3] == ('A', 5u32),
        letter_table()[4] == ('D', 4u32),
        letter_table()[5] == ('L', 10u32),
        letter_table()[6] == ('P', 9u32),
        letter_table()[7] == ('C', 11u32),
        letter_table()[8] == ('E', 14u32),
        letter_table()[9] == ('T', 8u32),
        letter_table()[10] == ('O', 12u32),
        letter_table()[11] == ('I', 13u32),
{
}

/// The letters of those among the first `n` attributes of the table that are set.
pub open spec fn letters_listed(attrs: u32, n: nat) -> Seq<char>
    decreases n,
{
    if n == 0 {
        Seq::empty()
    } else {
        let (c, k) = letter_table()[n - 1];
        let before = letters_listed(attrs, (n - 1) as nat);
        if attrs & (1u32 << k) != 0 {
            before.push(c)
        } else {
            before
        }
    }
}

/// The letters of a row are those of its set attributes, in Explorer's order.
#[verifier::rlimit(40)]
pub proof fn law_letters(attrs: u32)
    ensures
        export::letters_of(attrs) == letters_listed(attrs, 12),
{
    assert(1u32 << 0 == 0x1 && 1u32 << 1 == 0x2 && 1u32 << 2 == 0x4 && 1u32 << 4 == 0x10 && 1u32
        << 5 == 0x20 && 1u32 << 8 == 0x100 && 1u32 << 9 == 0x200 && 1u32 << 10 == 0x400 && 1u32
        << 11 == 0x800 && 1u32 << 12 == 0x1000 && 1u32 << 13 == 0x2000 && 1u32 << 14 == 0x4000)
        by (bit_vector);
    lemma_letter_table();
    let first = export::letter(attrs, 0x1, 'R');
    lemma_next_letter(attrs, 0, 'R', 0, 0x1);
    assert(letters_listed(attrs, 0) + first =~= first);
    lemma_next_letter(attrs, 1, 'H', 1, 0x2);
    lemma_next_letter(attrs, 2, 'S', 2, 0x4);
    lemma_next_letter(attrs, 3, 'A', 5, 0x20);
    lemma_next_letter(attrs, 4, 'D', 4, 0x10);
    lemma_next_letter(attrs, 5, 'L', 10, 0x400);
    lemma_next_letter(attrs, 6, 'P', 9, 0x200);
    lemma_next_letter(attrs, 7, 'C', 11, 0x800);
    lemma_next_letter(attrs, 8, 'E', 14, 0x4000);
    lemma_next_letter(attrs, 9, 'T', 8, 0x100);
    lemma_next_letter(attrs, 10, 'O', 12, 0x1000);
    lemma_next_letter(attrs, 11, 'I', 13, 0x2000);
}

/// A reader of the CSV file of some rows finds on the line of each in each column what the
/// header names there.
pub proof fn law_csv_file(hits: Vec<Hit>, out: String, i: int, k: int)
    requires
        call_ensures(export::write_export, (&hits, ExportFormat::Csv), out),
        0 <= i < hits@.len(),
        0 <= k < 7,
    ensures
        table(out@).len() == hits@.len() + 1,
        column_shows(table(out@)[0][k], hits@[i]@, table(out@)[i + 1][k]),
{
    let rows = hit::rows(hits@);
    assert(rows[i] == hits@[i]@);
    law_csv_columns(rows, out@, i, k);
}

/// A reader of the EFU file of some rows finds each on its line.
pub proof fn law_efu_file(hits: Vec<Hit>, out: String, i: int)
    requires
        export::in_filetime(hits@),
        call_ensures(export::write_export, (&hits, ExportFormat::Efu), out),
        0 <= i < hits@.len(),
    ensures
        table(out@).len() == hits@.len() + 1,
        efu_line_shows(table(out@)[i + 1], hits@[i]@),
{
    let rows = hit::rows(hits@);
    assert(rows[i] == hits@[i]@);
    law_efu_columns(rows, out@, i);
}

/// Every format but EFU takes all rows; that one those whose times a FILETIME can hold.
pub proof fn law_can_export(hits: Vec<Hit>, format: ExportFormat, r: bool, i: int)
    requires
        call_ensures(export::can_export, (&hits, format), r),
    ensures
        !(format is Efu) ==> r,
        r && format is Efu && 0 <= i < hits@.len() ==> export::filetime_of(hits@[i].modified as int)
            <= u64::MAX && export::filetime_of(hits@[i].created as int) <= u64::MAX,
{
}

/// The time of a row is blank where it is unknown; else it is what a clock that is less
/// than a day off UTC shows at that time, as long as the calendar reaches it.
#[verifier::rlimit(40)]
pub proof fn law_time_shown(ms: i64, r: String)
    requires
        call_ensures(export::local_datetime, (ms,), r),
    ensures
        ms == 0 ==> r@.len() == 0,
        ms != 0 && -8_000_000_000_000_000 < ms < 8_000_000_000_000_000 ==> exists|
            day: Day,
            second: int,
        |
            {
                let utc = ms as int / 1000;
                let shown = (day.number() - 719_163) * 86_400 + second;
                &&& r@ == #[trigger] export::clock_text(day, second)
                &&& 0 <= second < 86_400
                &&& utc - 86_400 < shown < utc + 86_400
            },
{
    if ms != 0 && -8_000_000_000_000_000 < ms < 8_000_000_000_000_000 {
        assert(dates::day_ok(ms as int / 86_400_000 + 719_163));
        let (day, second) = choose|day: Day, second: u32| #[trigger]
            export::clock_reads(ms, Some((day, second))) && export::on_some_clock(
                ms as int,
                day,
                second as int,
            ) && r@ == export::clock_text(day, second as int);
        let offset = choose|offset: int|
            export::clock_shows(ms as int, offset, day, second as int);
        assert(export::clock_shows(ms as int, offset, day, second as int));
        let n = second as int;
        assert(r@ == export::clock_text(day, n));
    }
}

/// A text is put in quotes exactly where it holds a comma, a quote, a line feed or a
/// carriage return; else it stands as it is.
pub proof fn law_field_quoted(s: &str, r: String)
    requires
        call_ensures(export::csv_field, (s,), r),
    ensures
        ({
            let quoted = s@.contains(',') || s@.contains('"') || s@.contains('\n') || s@.contains(
                '\r',
            );
            &&& quoted ==> r@.len() >= s@.len() + 2 && r@.first() == '"' && r@.last() == '"'
            &&& !quoted ==> r@ == s@
        }),
{
    lemma_doubled_len(s@);
}

proof fn lemma_doubled_len(s: Seq<char>)
    ensures
        export::doubled(s).len() >= s.len(),
    decreases s.len(),
{
    if s.len() > 0 {
        lemma_doubled_len(s.drop_last());
    }
}

/// A year stands in four digits or more, behind a minus before the year 0 and behind a plus
/// after 9999.
#[verifier::rlimit(40)]
pub proof fn law_year_text(y: int)
    ensures
        ({
            let t = export::year_text(y);
            let digits = if 0 <= y <= 9999 {
                t
            } else {
                t.drop_first()
            };
            &&& y < 0 ==> t[0] == '-'
            &&& y > 9999 ==> t[0] == '+'
            &&& digits.len() >= 4
            &&& text::is_numeral(digits)
            &&& -9999 <= y <= 9999 ==> digits.len() == 4 && pair(digits, 0) * 100 + pair(digits, 2)
                == if y < 0 {
                -y
            } else {
                y
            }
            &&& y > 9999 ==> text::digits_value(digits) == y
            &&& y < -9999 ==> text::digits_value(digits) == -y
        }),
{
    let t = export::year_text(y);
    let n = if y < 0 {
        -y
    } else {
        y
    };
    if n < 10_000 {
        lemma_pair(n / 100);
        lemma_pair(n % 100);
        let digits = export::two_digits(n / 100) + export::two_digits(n % 100);
        if y < 0 {
            assert(t.drop_first() =~= digits);
        } else {
            assert(t =~= digits);
        }
    } else {
        let digits = text::decimal(n as nat);
        law_decimal(n as nat);
        lemma_decimal_len(n as nat);
        assert(t.drop_first() =~= digits);
    }
}

proof fn lemma_decimal_len(n: nat)
    requires
        n >= 1000,
    ensures
        text::decimal(n).len() >= 4,
{
    reveal_with_fuel(text::decimal, 4);
}

} // verus!
