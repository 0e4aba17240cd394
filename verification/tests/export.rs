use allthethings::dates::Day;
use allthethings::export::{
    attr_letters, can_export, csv_field, format_clock, local_datetime, ms_to_filetime,
    write_export, ExportFormat, MAX_FILETIME_MS,
};
use allthethings::hit::Hit;
use allthethings::index::filetime_to_unix_ms;
use allthethings::search::parse_attrib;
use chrono::{Local, TimeZone};

fn hit(name: &str, path: &str, is_dir: bool, size: i64, attrs: u32) -> Hit {
    Hit {
        name: name.into(),
        path: path.into(),
        size,
        modified: 0,
        created: 0,
        accessed: 0,
        attributes: attrs,
        is_dir,
    }
}

fn render(hits: Vec<Hit>, format: ExportFormat) -> String {
    assert!(can_export(&hits, format));
    write_export(&hits, format)
}

#[test]
fn txt_is_one_path_per_line() {
    let hits = vec![
        hit("a.txt", "C:\\a.txt", false, 1, 0x20),
        hit("b", "C:\\b", true, -1, 0x10),
    ];
    assert_eq!(render(hits, ExportFormat::Txt), "C:\\a.txt\nC:\\b\n");
}

#[test]
fn csv_quotes_commas_and_omits_dir_size() {
    let hits = vec![
        hit("a,b.txt", "C:\\x\\a,b.txt", false, 42, 0x2 | 0x20),
        hit("dir", "C:\\dir", true, -1, 0x10),
    ];
    let out = render(hits, ExportFormat::Csv);
    let lines: Vec<&str> = out.lines().collect();
    assert_eq!(
        lines[0],
        "Name,Path,Size,Date Modified,Date Created,Date Accessed,Attributes"
    );
    // Comma-containing fields are quoted; file size present, attrs as letters.
    assert!(lines[1].starts_with("\"a,b.txt\",\"C:\\x\\a,b.txt\",42,"));
    assert!(lines[1].ends_with(",HA"));
    // Directory: empty size, D attribute.
    assert!(lines[2].starts_with("dir,C:\\dir,,"));
    assert!(lines[2].ends_with(",D"));
}

#[test]
fn efu_uses_filetime_and_numeric_attrs() {
    let mut h = hit("k.bin", "C:\\k.bin", false, 1000, 32);
    // 2024-06-15T12:00:00Z in Unix ms.
    h.modified = 1_718_452_800_000;
    let out = render(vec![h], ExportFormat::Efu);
    let lines: Vec<&str> = out.lines().collect();
    assert_eq!(
        lines[0],
        "Filename,Size,Date Modified,Date Created,Attributes"
    );
    // path, size, modified FILETIME, created (0, unknown), numeric attrs.
    assert_eq!(lines[1], "C:\\k.bin,1000,133629264000000000,0,32");
}

#[test]
fn efu_directory_size_is_zero() {
    let hits = vec![hit("dir", "C:\\dir", true, -1, 0x10)];
    let out = render(hits, ExportFormat::Efu);
    // Folder rows carry a numeric 0 size, not an empty field.
    assert_eq!(out.lines().nth(1).unwrap(), "C:\\dir,0,0,0,16");
}

#[test]
fn attr_letters_order() {
    assert_eq!(attr_letters(0x2 | 0x20), "HA");
    assert_eq!(attr_letters(0x1 | 0x4 | 0x20), "RSA");
    assert_eq!(attr_letters(0), "");
}

#[test]
fn every_attribute_has_its_letter() {
    assert_eq!(attr_letters(u32::MAX), "RHSADLPCETOI");
    assert_eq!(attr_letters(0x80), "");
}

#[test]
fn formats_are_parsed_by_name() {
    assert!(ExportFormat::parse("csv") == Some(ExportFormat::Csv));
    assert!(ExportFormat::parse("txt") == Some(ExportFormat::Txt));
    assert!(ExportFormat::parse("efu") == Some(ExportFormat::Efu));
    assert!(ExportFormat::parse("CSV").is_none());
    assert!(ExportFormat::parse("").is_none());
}

#[test]
fn fields_with_quotes_and_breaks_are_quoted() {
    assert_eq!(csv_field("plain"), "plain");
    assert_eq!(csv_field("a\"b"), "\"a\"\"b\"");
    assert_eq!(csv_field("a\nb"), "\"a\nb\"");
    assert_eq!(csv_field("a\rb"), "\"a\rb\"");
    assert_eq!(csv_field(""), "");
}

#[test]
fn unix_times_become_filetimes() {
    assert_eq!(ms_to_filetime(0), 0);
    assert_eq!(ms_to_filetime(1), 116_444_736_000_010_000);
    assert_eq!(ms_to_filetime(1_718_452_800_000), 133_629_264_000_000_000);
}

#[test]
fn local_times_are_shown_as_the_clock_has_them() {
    assert_eq!(local_datetime(0), "");
    assert_eq!(local_datetime(i64::MAX), "");
    assert_eq!(local_datetime(i64::MIN), "");
    for ms in [
        1_718_452_800_000i64,
        1,
        -1,
        999,
        1_000_000_000_123,
        -62_135_596_800_000,
        253_402_300_800_000 + 86_400_000 * 400,
    ] {
        let expected = Local
            .timestamp_millis_opt(ms)
            .single()
            .unwrap()
            .format("%Y-%m-%d %H:%M:%S")
            .to_string();
        assert_eq!(local_datetime(ms), expected);
    }
}

#[test]
fn clocks_are_written_with_leading_zeros() {
    let day = |year: i32, month: u32, day: u32| Day { year, month, day };
    assert_eq!(format_clock(day(2024, 6, 5), 3661), "2024-06-05 01:01:01");
    assert_eq!(format_clock(day(7, 12, 31), 86_399), "0007-12-31 23:59:59");
    assert_eq!(format_clock(day(-7, 1, 1), 0), "-0007-01-01 00:00:00");
    assert_eq!(format_clock(day(12_345, 1, 1), 0), "+12345-01-01 00:00:00");
}

#[test]
fn times_beyond_a_filetime_cannot_be_written_as_efu() {
    let mut h = hit("a", "C:\\a", false, 1, 0);
    h.modified = MAX_FILETIME_MS + 1;
    let hits = vec![h];
    assert!(!can_export(&hits, ExportFormat::Efu));
    assert!(can_export(&hits, ExportFormat::Csv));
    assert!(can_export(&hits, ExportFormat::Txt));
}

#[test]
fn csv_rows_show_local_times() {
    let mut h = hit("a", "C:\\a", false, 1, 0);
    h.modified = 1_718_452_800_000;
    let shown = Local
        .timestamp_millis_opt(h.modified)
        .single()
        .unwrap()
        .format("%Y-%m-%d %H:%M:%S")
        .to_string();
    let out = render(vec![h], ExportFormat::Csv);
    assert_eq!(
        out.lines().nth(1).unwrap(),
        format!("a,C:\\a,1,{shown},,,")
    );
}

/// What a reader of CSV files makes of a field.
fn unquoted(field: &str) -> String {
    match field.strip_prefix('"').and_then(|f| f.strip_suffix('"')) {
        Some(inner) => inner.replace("\"\"", "\""),
        None => field.to_string(),
    }
}

#[test]
fn fields_come_back_from_a_csv_file() {
    for s in ["plain", "a,b", "\"", "a\"b,\"", "x\ny", "\"quoted\"", ""] {
        assert_eq!(unquoted(&csv_field(s)), s);
    }
}

#[test]
fn filetimes_come_back_as_unix_times() {
    for ms in [1i64, 999, 1_718_452_800_000, -1, -11_644_473_599_999] {
        assert_eq!(filetime_to_unix_ms(ms_to_filetime(ms)), Some(ms));
    }
    assert_eq!(filetime_to_unix_ms(0), None);
}

#[test]
fn attributes_come_back_from_their_letters() {
    for attrs in [0x1u32, 0x22, 0x7F37, 0x410, 0x2006] {
        assert_eq!(parse_attrib(&attr_letters(attrs)), Some(attrs));
    }
    // The attributes without a letter of their own stay behind.
    assert_eq!(parse_attrib(&attr_letters(0x0001_00A0)), Some(0x20));
    assert_eq!(parse_attrib(&attr_letters(0x80)), None);
}
