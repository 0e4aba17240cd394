use allthethings::entry::RecordId;
use allthethings::error::{IndexError, IndexResult};
use allthethings::index::{EntrySnapshot, SearchIndex};
use allthethings::indexer::{RawRecord, VolumeEnumerator};
use allthethings::matcher::Matcher;
use allthethings::search::{SearchOptions, SortKey};
use std::sync::atomic::{AtomicUsize, Ordering};

fn snap(record: u64, parent: u64, name: &str) -> EntrySnapshot {
    EntrySnapshot {
        record,
        parent,
        name: name.into(),
        is_dir: false,
        size: Some(1),
        modified_ms: None,
        created_ms: None,
        accessed_ms: None,
        attributes: 0,
    }
}

fn raw(record: u64, parent: u64, name: &str) -> RawRecord {
    RawRecord {
        record_no: record,
        parent_no: parent,
        name: name.into(),
        is_dir: false,
        size: Some(1),
        modified_ft: 0,
        created_ft: 0,
        accessed_ft: 0,
        attributes: 0,
    }
}

/// Every entry is reachable through `by_record`, and no slot is stale.
fn assert_by_record_consistent(idx: &SearchIndex) {
    for (i, e) in idx.entries.iter().enumerate() {
        let positions = idx.by_record.get(&e.record.0).expect("record is mapped");
        assert!(
            positions.contains(&(i as u32)),
            "entry {i} (record {}) missing from by_record",
            e.record.0
        );
    }
    for (rec, positions) in &idx.by_record {
        for &p in positions {
            assert_eq!(
                idx.entries[p as usize].record.0, *rec,
                "stale by_record slot"
            );
        }
    }
}

#[test]
fn delete_removes_all_hardlinks_of_a_record() {
    // Record 50 is hardlinked (two names); record 60 is unrelated.
    let mut idx = SearchIndex::import(
        'C',
        vec![
            snap(50, 5, "a.dll"),
            snap(50, 6, "b.dll"),
            snap(60, 5, "x.txt"),
        ],
    );
    assert_eq!(idx.entries.len(), 3);
    idx.apply_delete(50);
    assert_eq!(idx.entries.len(), 1, "both links of record 50 must be gone");
    assert_eq!(idx.entries[0].record.0, 60);
    assert!(!idx.by_record.contains_key(&50));
    assert_by_record_consistent(&idx);
}

#[test]
fn upsert_targets_the_named_link_and_appends_new_ones() {
    let mut idx = SearchIndex::import('C', vec![snap(50, 5, "a.dll"), snap(50, 6, "b.dll")]);
    // Updating an existing link (record + parent + name) replaces it, never a sibling.
    idx.apply_upsert(raw(50, 6, "b.dll"));
    assert_eq!(idx.entries.len(), 2);
    // A new hardlink to the same record appends a row rather than clobbering one.
    idx.apply_upsert(raw(50, 7, "c.dll"));
    assert_eq!(idx.entries.len(), 3);
    assert_eq!(idx.by_record.get(&50).map(Vec::len), Some(3));
    let names: Vec<&str> = idx.entries.iter().map(|e| e.name.as_str()).collect();
    assert!(["a.dll", "b.dll", "c.dll"]
        .iter()
        .all(|n| names.contains(n)));
    assert_by_record_consistent(&idx);
}

#[test]
fn upsert_renames_single_link_in_place() {
    // A single-link file's rename / move updates its row, never a duplicate.
    let mut idx =
        SearchIndex::import('C', vec![snap(50, 5, "foo.txt"), snap(60, 5, "other.txt")]);
    idx.apply_upsert(raw(50, 5, "bar.txt")); // rename in place
    assert_eq!(idx.entries.len(), 2, "rename must not leave a ghost row");
    let r50 = idx.by_record.get(&50).expect("record 50");
    assert_eq!(r50.len(), 1);
    assert_eq!(idx.entries[r50[0] as usize].name, "bar.txt");
    idx.apply_upsert(raw(50, 7, "bar.txt")); // move to a new parent
    assert_eq!(idx.entries.len(), 2);
    assert_eq!(idx.by_record.get(&50).map(Vec::len), Some(1));
    assert_eq!(idx.entries[idx.by_record[&50][0] as usize].parent.0, 7);
    assert_by_record_consistent(&idx);
}

#[test]
fn delete_repairs_by_record_for_swap_moved_entries() {
    let snaps: Vec<EntrySnapshot> =
        (10..20).map(|r| snap(r, 5, &format!("f{r}.txt"))).collect();
    let mut idx = SearchIndex::import('C', snaps);
    idx.apply_delete(12);
    idx.apply_delete(18);
    idx.apply_delete(10);
    assert_eq!(idx.entries.len(), 7);
    assert_by_record_consistent(&idx);
}

#[test]
fn a_repeated_change_adds_nothing() {
    let mut idx = SearchIndex::import('C', vec![snap(50, 5, "a.dll"), snap(50, 6, "b.dll")]);
    idx.apply_upsert(raw(50, 7, "c.dll"));
    idx.apply_upsert(raw(50, 7, "c.dll"));
    assert_eq!(idx.len(), 3);
    idx.apply_upsert(raw(70, 5, "new"));
    idx.apply_upsert(raw(70, 5, "new"));
    assert_eq!(idx.len(), 4);
    idx.apply_delete(70);
    idx.apply_delete(70);
    assert_eq!(idx.len(), 3);
    assert_by_record_consistent(&idx);
}

#[test]
fn nameless_records_and_the_root_are_passed_over() {
    let mut idx = SearchIndex::import('C', vec![]);
    idx.apply_upsert(raw(70, 5, ""));
    idx.apply_upsert(raw(5, 5, "."));
    assert_eq!(idx.len(), 0);
}

#[test]
fn an_exported_index_comes_back() {
    let mut idx = SearchIndex::import('C', vec![snap(50, 5, "B"), snap(51, 50, "a")]);
    let mut r = raw(52, 51, "New.TXT");
    r.modified_ft = 133_629_264_000_000_000;
    r.created_ft = 1;
    r.attributes = 0x22;
    idx.apply_upsert(r);
    let back = SearchIndex::import('C', idx.export());
    assert_eq!(back.drive(), 'C');
    assert_eq!(back.len(), 3);
    for (a, b) in idx.entries.iter().zip(&back.entries) {
        assert_eq!(a.record, b.record);
        assert_eq!(a.parent, b.parent);
        assert_eq!(a.name, b.name);
        assert_eq!(a.name_lower, b.name_lower);
        assert_eq!(a.size, b.size);
        assert_eq!(a.modified_ms, b.modified_ms);
        assert_eq!(a.created_ms, b.created_ms);
        assert_eq!(a.accessed_ms, b.accessed_ms);
        assert_eq!(a.attributes, b.attributes);
    }
    let last = &back.entries[2];
    assert_eq!(last.name_lower, "new.txt");
    assert_eq!(last.modified_ms, Some(1_718_452_800_000));
    assert_eq!(last.accessed_ms, None);
}

struct Source(Vec<RawRecord>, bool);

impl VolumeEnumerator for Source {
    fn drive(&self) -> char {
        'E'
    }

    fn enumerate(&mut self) -> IndexResult<Vec<RawRecord>> {
        if self.1 {
            return Err(IndexError::NotNtfs("E:".into()));
        }
        Ok(std::mem::take(&mut self.0))
    }
}

#[test]
fn an_index_is_built_from_a_source() {
    let progress = AtomicUsize::new(0);
    let mut source = Source(
        vec![
            raw(5, 5, "."),
            raw(30, 5, "dir"),
            raw(31, 30, "File.TXT"),
            raw(32, 30, ""),
        ],
        false,
    );
    source.0[1].is_dir = true;
    let idx = SearchIndex::build_from(&mut source, &progress).unwrap();
    assert_eq!(idx.drive(), 'E');
    assert_eq!(idx.len(), 2);
    assert_eq!(idx.build_path(1), "E:\\dir\\File.TXT");
    assert!(progress.load(Ordering::Relaxed) <= 4);
    let mut broken = Source(vec![], true);
    match SearchIndex::build_from(&mut broken, &progress) {
        Err(e) => assert_eq!(e.message(), "E: is not an NTFS volume"),
        Ok(_) => panic!("the source failed"),
    }
}

#[test]
fn an_index_is_built_from_a_listing() {
    let progress = AtomicUsize::new(0);
    let rows = vec![raw(30, 5, "a"), raw(31, 5, "b")];
    let idx = SearchIndex::from_listing('F', Ok(rows), &progress).unwrap();
    assert_eq!(idx.drive(), 'F');
    assert_eq!(idx.build_path(1), "F:\\b");
    match SearchIndex::from_listing('F', Err(IndexError::NotNtfs("F:".into())), &progress) {
        Err(e) => assert_eq!(e.message(), "F: is not an NTFS volume"),
        Ok(_) => panic!("the listing failed"),
    }
}

#[test]
fn paths_end_at_unknown_parents_and_cycles() {
    let idx = SearchIndex::import(
        'C',
        vec![snap(40, 99, "orphan"), snap(41, 42, "a"), snap(42, 41, "b")],
    );
    assert_eq!(idx.build_path(0), "C:\\orphan");
    let looped = idx.build_path(1);
    assert!(looped.starts_with("C:\\"));
    assert!(looped.ends_with("\\b\\a"));
}

fn ranked(idx: &SearchIndex, options: &SearchOptions) -> Vec<String> {
    let m = Matcher::compile(options).unwrap();
    idx.search(options, &m)
        .hits
        .iter()
        .map(|h| h.name.clone())
        .collect()
}

#[test]
fn results_are_ranked_by_each_column() {
    let mut a = snap(10, 5, "b.x");
    a.size = Some(9);
    a.modified_ms = Some(5);
    a.created_ms = Some(6);
    a.accessed_ms = Some(1);
    a.attributes = 2;
    let mut b = snap(11, 5, "A.y");
    b.size = Some(3);
    b.modified_ms = Some(7);
    b.created_ms = Some(2);
    b.accessed_ms = Some(8);
    b.attributes = 1;
    let mut dir = snap(12, 5, "zdir");
    dir.is_dir = true;
    dir.size = None;
    let idx = SearchIndex::import('C', vec![a, b, dir]);
    let mut o = SearchOptions::default();
    assert_eq!(ranked(&idx, &o), ["A.y", "b.x", "zdir"]);
    o.ascending = false;
    assert_eq!(ranked(&idx, &o), ["zdir", "b.x", "A.y"]);
    o.folders_first = true;
    assert_eq!(ranked(&idx, &o), ["zdir", "b.x", "A.y"]);
    o.ascending = true;
    assert_eq!(ranked(&idx, &o), ["zdir", "A.y", "b.x"]);
    o.folders_first = false;
    o.sort = SortKey::Size;
    assert_eq!(ranked(&idx, &o), ["zdir", "A.y", "b.x"]);
    o.sort = SortKey::Modified;
    assert_eq!(ranked(&idx, &o), ["zdir", "b.x", "A.y"]);
    o.sort = SortKey::Created;
    assert_eq!(ranked(&idx, &o), ["zdir", "A.y", "b.x"]);
    o.sort = SortKey::Accessed;
    assert_eq!(ranked(&idx, &o), ["zdir", "b.x", "A.y"]);
    o.sort = SortKey::Ext;
    assert_eq!(ranked(&idx, &o), ["zdir", "b.x", "A.y"]);
    o.sort = SortKey::Attributes;
    assert_eq!(ranked(&idx, &o), ["zdir", "A.y", "b.x"]);
    o.sort = SortKey::Path;
    o.ascending = false;
    assert_eq!(ranked(&idx, &o), ["zdir", "b.x", "A.y"]);
    o.limit = 1;
    assert_eq!(ranked(&idx, &o), ["zdir"]);
    assert_eq!(idx.entries[0].record, RecordId(10));
}

#[test]
fn results_carry_what_is_known() {
    let mut a = snap(10, 5, "File");
    a.modified_ms = Some(77);
    a.attributes = 32;
    let mut dir = snap(12, 5, "dir");
    dir.is_dir = true;
    let idx = SearchIndex::import('C', vec![a, dir]);
    let o = SearchOptions {
        query: "file".into(),
        ..SearchOptions::default()
    };
    let r = idx.search(&o, &Matcher::compile(&o).unwrap());
    assert_eq!(r.total, 1);
    let h = &r.hits[0];
    assert_eq!(h.path, "C:\\File");
    assert_eq!((h.size, h.modified, h.created, h.accessed), (1, 77, 0, 0));
    assert_eq!(h.attributes, 32);
    assert!(!h.is_dir);
}
