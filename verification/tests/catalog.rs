use allthethings::catalog::{merge, sort_hits, Catalog};
use allthethings::commands::EXPORT_CAP;
use allthethings::entry::RecordId;
use allthethings::hit::{Hit, SearchResult};
use allthethings::index::{EntrySnapshot, SearchIndex};
use allthethings::search::{SearchOptions, SortKey};

fn hit(name: &str, is_dir: bool) -> Hit {
    Hit {
        name: name.into(),
        path: format!("C:\\{name}"),
        size: if is_dir { -1 } else { 1 },
        modified: 0,
        created: 0,
        accessed: 0,
        attributes: 0,
        is_dir,
    }
}

fn opts(sort: SortKey, ascending: bool, folders_first: bool) -> SearchOptions {
    SearchOptions {
        sort,
        ascending,
        folders_first,
        ..SearchOptions::default()
    }
}

fn names(hits: &[Hit]) -> Vec<&str> {
    hits.iter().map(|h| h.name.as_str()).collect()
}

#[test]
fn folders_first_groups_dirs_then_sorts_within() {
    let mut hits = vec![
        hit("b.txt", false),
        hit("zdir", true),
        hit("a.txt", false),
        hit("adir", true),
    ];
    sort_hits(&mut hits, &opts(SortKey::Name, true, true));
    assert_eq!(names(&hits), ["adir", "zdir", "a.txt", "b.txt"]);
}

#[test]
fn folders_first_keeps_dirs_on_top_when_descending() {
    let mut hits = vec![hit("b.txt", false), hit("adir", true), hit("a.txt", false)];
    sort_hits(&mut hits, &opts(SortKey::Name, false, true));
    // Dirs stay grouped on top; files within the group reverse.
    assert_eq!(names(&hits), ["adir", "b.txt", "a.txt"]);
}

#[test]
fn ext_sort_orders_by_extension() {
    let mut hits = vec![
        hit("a.zip", false),
        hit("b.doc", false),
        hit("c.png", false),
    ];
    sort_hits(&mut hits, &opts(SortKey::Ext, true, false));
    assert_eq!(names(&hits), ["b.doc", "c.png", "a.zip"]);
}

fn snap(record: u64, parent: u64, name: &str, is_dir: bool, size: Option<u64>) -> EntrySnapshot {
    EntrySnapshot {
        record,
        parent,
        name: name.into(),
        is_dir,
        size,
        modified_ms: Some(record as i64 * 1000),
        created_ms: None,
        accessed_ms: None,
        attributes: 0,
    }
}

fn two_volumes() -> Catalog {
    let mut catalog = Catalog::default();
    catalog.upsert_volume(SearchIndex::import(
        'C',
        vec![
            snap(10, 5, "docs", true, None),
            snap(11, 10, "Report.txt", false, Some(30)),
            snap(12, 10, "alpha.log", false, Some(10)),
        ],
    ));
    catalog.upsert_volume(SearchIndex::import(
        'D',
        vec![
            snap(20, 5, "beta.txt", false, Some(20)),
            snap(21, 5, "Music", true, None),
        ],
    ));
    catalog
}

fn search(catalog: &Catalog, options: &SearchOptions) -> SearchResult {
    let r = catalog.search(options);
    assert!(r.error.is_none());
    assert!(!r.capped);
    r
}

#[test]
fn a_search_merges_the_volumes_in_order() {
    let catalog = two_volumes();
    let r = search(&catalog, &SearchOptions::default());
    assert_eq!(r.total, 5);
    assert_eq!(
        names(&r.hits),
        ["alpha.log", "beta.txt", "docs", "Music", "Report.txt"]
    );
    let paths: Vec<&str> = r.hits.iter().map(|h| h.path.as_str()).collect();
    assert_eq!(
        paths,
        [
            "C:\\docs\\alpha.log",
            "D:\\beta.txt",
            "C:\\docs",
            "D:\\Music",
            "C:\\docs\\Report.txt"
        ]
    );
}

#[test]
fn a_search_is_cut_at_the_limit_and_keeps_the_total() {
    let catalog = two_volumes();
    let mut o = opts(SortKey::Size, false, false);
    o.limit = 2;
    let r = search(&catalog, &o);
    assert_eq!(r.total, 5);
    assert_eq!(names(&r.hits), ["Report.txt", "beta.txt"]);
}

#[test]
fn a_search_filters_by_query() {
    let catalog = two_volumes();
    let mut o = opts(SortKey::Path, true, false);
    o.query = "ext:txt".into();
    let r = search(&catalog, &o);
    assert_eq!(r.total, 2);
    assert_eq!(names(&r.hits), ["Report.txt", "beta.txt"]);
    o.query = "folder:".into();
    let r = search(&catalog, &o);
    assert_eq!(names(&r.hits), ["docs", "Music"]);
}

#[test]
fn a_search_on_one_volume_answers_the_same() {
    let mut catalog = Catalog::default();
    catalog.upsert_volume(SearchIndex::import(
        'C',
        vec![snap(7, 5, "b", false, Some(1)), snap(8, 5, "a", false, Some(2))],
    ));
    let r = search(&catalog, &SearchOptions::default());
    assert_eq!(names(&r.hits), ["a", "b"]);
    assert_eq!(r.total, 2);
}

#[test]
fn an_empty_catalog_answers_nothing() {
    let catalog = Catalog::default();
    let r = search(&catalog, &SearchOptions::default());
    assert_eq!(r.total, 0);
    assert!(r.hits.is_empty());
}

#[test]
fn a_broken_regex_is_reported() {
    let catalog = two_volumes();
    let o = SearchOptions {
        query: "(".into(),
        regex: true,
        ..SearchOptions::default()
    };
    let r = catalog.search(&o);
    assert_eq!(r.total, 0);
    assert!(r.hits.is_empty());
    assert!(r.error.unwrap().contains("unclosed group"));
}

#[test]
fn a_volume_is_replaced_by_its_drive() {
    let mut catalog = two_volumes();
    catalog.upsert_volume(SearchIndex::import('C', vec![snap(9, 5, "only", false, None)]));
    assert_eq!(catalog.volumes.len(), 2);
    assert_eq!(catalog.volume('C').unwrap().len(), 1);
    assert!(catalog.volume('X').is_none());
    catalog.volume_mut('C').unwrap().apply_delete(9);
    assert_eq!(catalog.volume('C').unwrap().len(), 0);
    assert_eq!(catalog.volume('D').unwrap().len(), 2);
    assert!(catalog.volume_mut('X').is_none());
}

#[test]
fn live_changes_show_in_the_next_search() {
    let mut catalog = two_volumes();
    catalog.volume_mut('D').unwrap().apply_delete(20);
    let r = search(&catalog, &SearchOptions::default());
    assert_eq!(names(&r.hits), ["alpha.log", "docs", "Music", "Report.txt"]);
    let entry = &catalog.volume('D').unwrap().entries[0];
    assert_eq!(entry.record, RecordId(21));
}

#[test]
fn ties_keep_the_order_of_the_volumes() {
    let mut hits = vec![hit("same", false), hit("same", false), hit("a", false)];
    hits[0].path = "C:\\1".into();
    hits[1].path = "D:\\2".into();
    sort_hits(&mut hits, &opts(SortKey::Name, true, false));
    let paths: Vec<&str> = hits.iter().map(|h| h.path.as_str()).collect();
    assert_eq!(paths, ["C:\\a", "C:\\1", "D:\\2"]);
    sort_hits(&mut hits, &opts(SortKey::Name, false, false));
    let paths: Vec<&str> = hits.iter().map(|h| h.path.as_str()).collect();
    assert_eq!(paths, ["D:\\2", "C:\\1", "C:\\a"]);
}

#[test]
fn every_column_orders_rows() {
    let mut a = hit("a.b", false);
    a.size = 5;
    a.modified = 9;
    a.created = 1;
    a.accessed = 7;
    a.attributes = 3;
    let mut b = hit("b.a", false);
    b.size = 6;
    b.modified = 8;
    b.created = 2;
    b.accessed = 6;
    b.attributes = 4;
    for (key, first) in [
        (SortKey::Name, "a.b"),
        (SortKey::Path, "a.b"),
        (SortKey::Size, "a.b"),
        (SortKey::Modified, "b.a"),
        (SortKey::Created, "a.b"),
        (SortKey::Accessed, "b.a"),
        (SortKey::Ext, "b.a"),
        (SortKey::Attributes, "a.b"),
    ] {
        let mut hits = vec![a.clone(), b.clone()];
        sort_hits(&mut hits, &opts(key, true, false));
        assert_eq!(hits[0].name, first);
        let mut hits = vec![b.clone(), a.clone()];
        sort_hits(&mut hits, &opts(key, false, false));
        assert_eq!(hits[1].name, first);
    }
}

#[test]
fn a_merge_sums_the_totals() {
    let part = |total: usize, name: &str| SearchResult {
        total,
        took_ms: 3,
        hits: vec![hit(name, false)],
        error: None,
        capped: false,
    };
    let mut o = SearchOptions::default();
    let r = merge(vec![part(4, "b"), part(5, "a")], &o);
    assert_eq!(r.total, 9);
    assert_eq!(r.took_ms, 0);
    assert_eq!(names(&r.hits), ["a", "b"]);
    o.limit = 1;
    let r = merge(vec![part(4, "b"), part(5, "a")], &o);
    assert_eq!(names(&r.hits), ["a"]);
    let r = merge(vec![part(usize::MAX, "b"), part(5, "a")], &o);
    assert_eq!(r.total, usize::MAX);
}

#[test]
fn the_best_rows_of_all_volumes_come_first() {
    let mut catalog = Catalog::default();
    for (drive, first) in [('C', 0u64), ('D', 1), ('E', 2)] {
        let entries = (0..50)
            .map(|i| snap(100 + i, 5, &format!("{:03}", i * 3 + first), false, Some(i * 3 + first)))
            .collect();
        catalog.upsert_volume(SearchIndex::import(drive, entries));
    }
    for (sort, ascending) in [(SortKey::Name, true), (SortKey::Size, false)] {
        let mut o = opts(sort, ascending, false);
        o.limit = 20;
        let r = search(&catalog, &o);
        assert_eq!(r.total, 150);
        let expected: Vec<String> = (0..20)
            .map(|i| format!("{:03}", if ascending { i } else { 149 - i }))
            .collect();
        assert_eq!(names(&r.hits), expected);
    }
    let mut o = SearchOptions::default();
    o.limit = EXPORT_CAP;
    let r = search(&catalog, &o);
    assert_eq!(r.hits.len(), r.total);
}

#[test]
fn folders_stand_on_top_across_volumes() {
    let catalog = two_volumes();
    for sort in [SortKey::Name, SortKey::Path, SortKey::Size, SortKey::Ext, SortKey::Modified] {
        for ascending in [true, false] {
            let r = search(&catalog, &opts(sort, ascending, true));
            let dirs: Vec<bool> = r.hits.iter().map(|h| h.is_dir).collect();
            assert_eq!(dirs, [true, true, false, false, false]);
        }
    }
}

#[test]
fn the_best_rows_by_extension_come_first() {
    let mut catalog = Catalog::default();
    for (drive, exts) in [('C', ["d", "B", "zip"]), ('D', ["a", "C", "txt"])] {
        let entries = exts
            .iter()
            .enumerate()
            .map(|(i, e)| snap(100 + i as u64, 5, &format!("f.{e}"), false, Some(1)))
            .collect();
        catalog.upsert_volume(SearchIndex::import(drive, entries));
    }
    let mut o = opts(SortKey::Ext, true, false);
    o.limit = 4;
    let r = search(&catalog, &o);
    assert_eq!(r.total, 6);
    assert_eq!(names(&r.hits), ["f.a", "f.B", "f.C", "f.d"]);
}

#[test]
fn an_entry_is_left_out_for_those_ahead_of_it() {
    // In the volume the extension folds to a final sigma, in the merge to an inner one.
    let mut catalog = Catalog::default();
    for drive in ['C', 'D'] {
        let entries = ["a.\u{3a3}", "b.\u{3c3}", "c.\u{3c1}"]
            .iter()
            .enumerate()
            .map(|(i, n)| snap(100 + i as u64, 5, n, false, Some(1)))
            .collect();
        catalog.upsert_volume(SearchIndex::import(drive, entries));
    }
    let mut o = opts(SortKey::Ext, true, false);
    o.limit = 2;
    let r = search(&catalog, &o);
    assert_eq!(r.total, 6);
    assert_eq!(names(&r.hits), ["c.\u{3c1}", "c.\u{3c1}"]);
}
