use allthethings::commands::{
    content_result, export_results, export_rows, search_content, ContentPlan, CONTENT_CANDIDATE_CAP,
    CONTENT_OR_ERR, EXPORT_CAP,
};
use allthethings::content::{
    body_contains_all, content_needles, content_scope_ok, decode, extract_content,
    filter_by_content, keeps, wants_body,
};
use allthethings::export::ExportFormat;
use allthethings::hit::{Hit, SearchResult};
use allthethings::search::SearchOptions;

fn hit(path: &str) -> Hit {
    Hit {
        name: String::new(),
        path: path.into(),
        size: 1,
        modified: 0,
        created: 0,
        accessed: 0,
        attributes: 0,
        is_dir: false,
    }
}

#[test]
fn detects_binary_and_text() {
    assert!(decode(b"hello world").is_some());
    assert!(decode(b"line1\nline2\r\n").is_some());
    // A NUL near the start marks binary.
    assert!(decode(b"PK\x03\x04\x00\x00stuff").is_none());
}

#[test]
fn decodes_utf16le_bom() {
    // "Hi" as UTF-16 LE with BOM.
    let bytes = [0xFF, 0xFE, b'H', 0x00, b'i', 0x00];
    assert_eq!(decode(&bytes).as_deref(), Some("Hi"));
}

#[test]
fn filter_keeps_matching_text_and_skips_binary() {
    let bodies: [&[u8]; 3] = [
        b"hello TIMEOUT world",   // case-insensitive match
        b"nothing relevant here",
        b"\x00\x00timeout\x00", // has the word but is binary
    ];
    let hits = vec![hit("a.txt"), hit("b.txt"), hit("c.bin")];
    let needles = content_needles(&vec!["timeout".to_string()], false);
    let matched: Vec<bool> = hits
        .iter()
        .zip(bodies)
        .map(|(h, body)| keeps(h, Some(body), &needles, false))
        .collect();
    let out = filter_by_content(hits, &matched);
    let paths: Vec<&str> = out.iter().map(|h| h.path.as_str()).collect();
    assert_eq!(paths, vec!["a.txt"]);
}

#[test]
fn decodes_utf16be_bom_pairs_and_lone_halves() {
    let bytes = [0xFE, 0xFF, 0xD8, 0x3D, 0xDE, 0x00, 0xD8, 0x00, 0x00, b'x', 0x01];
    assert_eq!(decode(&bytes).as_deref(), Some("\u{1F600}\u{FFFD}x"));
}

#[test]
fn decodes_utf8_and_replaces_what_is_not() {
    assert_eq!(decode("h\u{e9}llo".as_bytes()).as_deref(), Some("h\u{e9}llo"));
    assert_eq!(decode(b"a\xFFb").as_deref(), Some("a\u{FFFD}b"));
    assert_eq!(decode(b"").as_deref(), Some(""));
    // A NUL far from the start does not mark binary.
    let mut late = vec![b'a'; 8192];
    late.push(0);
    assert!(decode(&late).is_some());
}

#[test]
fn needles_are_folded_unless_case_matters() {
    let terms = vec!["ABC".to_string(), "É".to_string()];
    assert_eq!(content_needles(&terms, false), vec!["abc", "\u{e9}"]);
    assert_eq!(content_needles(&terms, true), vec!["ABC", "É"]);
    let needles = content_needles(&terms, false);
    assert!(body_contains_all("x abc \u{e9} y".as_bytes(), &needles, false));
    assert!(body_contains_all("x ABC É y".as_bytes(), &needles, false));
    assert!(!body_contains_all(b"x abc", &needles, false));
    let needles = content_needles(&terms, true);
    assert!(!body_contains_all("x abc É y".as_bytes(), &needles, true));
}

#[test]
fn only_plain_files_are_read() {
    let mut h = hit("a");
    assert!(wants_body(&h));
    h.attributes = 0x400;
    assert!(!wants_body(&h));
    h.attributes = 0x20;
    h.is_dir = true;
    assert!(!wants_body(&h));
    let needles: Vec<String> = vec![];
    assert!(keeps(&hit("a"), Some(b"x"), &needles, true));
    assert!(!keeps(&hit("a"), None, &needles, true));
    assert!(!keeps(&h, Some(b"x"), &needles, true));
}

#[test]
fn content_scope_needs_a_single_alternative() {
    assert!(content_scope_ok("content:x a b"));
    assert!(!content_scope_ok("content:x a | b"));
    assert!(content_scope_ok("content:x (a | b)"));
    assert!(content_scope_ok("\"a | b\""));
    assert!(!content_scope_ok("(a | b) | c"));
    assert!(!content_scope_ok(") | ("));
}

#[test]
fn content_is_a_function_in_any_case() {
    let (rest, terms) = extract_content("a Content:b CONTENT:\"c d\" e");
    assert_eq!(rest, "a e");
    assert_eq!(terms, vec!["b", "c d"]);
    let (rest, terms) = extract_content("content:\"open");
    assert_eq!(rest, "");
    assert_eq!(terms, vec!["open"]);
}

fn options(query: &str) -> SearchOptions {
    SearchOptions {
        query: query.into(),
        limit: 7,
        match_case: true,
        ..SearchOptions::default()
    }
}

#[test]
fn a_content_search_is_planned() {
    match search_content(&options("a content: b")).unwrap() {
        ContentPlan::Plain(o) => {
            assert_eq!(o.query, "a b");
            assert_eq!(o.limit, 7);
            assert!(o.match_case);
        }
        ContentPlan::Scan { .. } => panic!("there is no term"),
    }
    match search_content(&options("a content:x (b | c)")).unwrap() {
        ContentPlan::Scan { options, terms } => {
            assert_eq!(options.query, "a (b | c)");
            assert_eq!(options.limit, CONTENT_CANDIDATE_CAP);
            assert_eq!(terms, vec!["x"]);
        }
        ContentPlan::Plain(_) => panic!("there is a term"),
    }
    assert_eq!(
        search_content(&options("a | content:x")).unwrap_err(),
        CONTENT_OR_ERR
    );
}

fn answer(total: usize, paths: &[&str]) -> SearchResult {
    SearchResult {
        total,
        took_ms: 1,
        hits: paths.iter().map(|p| hit(p)).collect(),
        error: None,
        capped: false,
    }
}

#[test]
fn a_content_result_counts_what_stays() {
    let r = content_result(answer(3, &["a", "b", "c"]), &vec![true, false, true], 1, 9);
    assert_eq!(r.total, 2);
    assert_eq!(r.took_ms, 9);
    assert_eq!(r.hits.len(), 1);
    assert_eq!(r.hits[0].path, "a");
    assert!(!r.capped);
    let r = content_result(
        answer(CONTENT_CANDIDATE_CAP + 1, &["a"]),
        &vec![false],
        5,
        0,
    );
    assert!(r.capped);
    assert_eq!(r.total, 0);
    let failed = SearchResult::error("bad".into(), 4);
    let r = content_result(failed, &vec![], 5, 0);
    assert_eq!(r.error.as_deref(), Some("bad"));
    assert_eq!(r.took_ms, 4);
}

#[test]
fn an_export_is_planned() {
    let plan = export_results(&options("a"), "csv").unwrap();
    assert!(plan.format == ExportFormat::Csv);
    assert_eq!(plan.options.limit, EXPORT_CAP);
    assert!(plan.terms.is_empty());
    let plan = export_results(&options("a content:x"), "efu").unwrap();
    assert_eq!(plan.options.limit, CONTENT_CANDIDATE_CAP);
    assert_eq!(plan.options.query, "a");
    assert_eq!(plan.terms, vec!["x"]);
    assert_eq!(
        export_results(&options("a"), "pdf").unwrap_err(),
        "unknown format 'pdf'"
    );
    assert_eq!(
        export_results(&options("a | content:x"), "txt").unwrap_err(),
        CONTENT_OR_ERR
    );
}

#[test]
fn an_export_is_summed_up() {
    let (rows, s) = export_rows(answer(5, &["a", "b"]), None).unwrap();
    assert_eq!(rows.len(), 2);
    assert_eq!((s.written, s.total, s.capped), (2, 5, false));
    let matched = vec![false, true];
    let (rows, s) = export_rows(answer(CONTENT_CANDIDATE_CAP + 1, &["a", "b"]), Some(&matched)).unwrap();
    assert_eq!(rows[0].path, "b");
    assert_eq!((s.written, s.total, s.capped), (1, 1, true));
    let failed = SearchResult::error("bad".into(), 4);
    match export_rows(failed, None) {
        Err(e) => assert_eq!(e, "bad"),
        Ok(_) => panic!("the search failed"),
    }
}

#[test]
fn plain_text_is_decoded_as_it_stands() {
    assert_eq!(decode(b"hello world").as_deref(), Some("hello world"));
    assert_eq!(decode(b"line1\nline2\r\n").as_deref(), Some("line1\nline2\r\n"));
    assert_eq!(decode("gr\u{fc}n".as_bytes()).as_deref(), Some("gr\u{fc}n"));
}
