use allthethings::error::IndexError;
use allthethings::index::{EntrySnapshot, SearchIndex};
use allthethings::indexer::RawRecord;
use allthethings::mft::{
    apply_fixup, decode_runs, parse_boot, parse_chunk, parse_file_record, parse_layout,
    parse_meta, parse_mft_data_runs, Geometry, Layout, RecordMeta, Run, CHUNK_RECORDS,
};
use allthethings::usn::{
    apply_event, enrich, journal_state, parse_records, CatchUp, Event, JournalState, Replay,
    ReplayStep, Watch,
};
use allthethings::volumes::{
    device_path, drive_letters, is_ntfs_fixed, ntfs_fixed_drives, open_error, read_error,
    root_path, transfer_size, DriveFacts, Fill, FillStep,
};

fn put(b: &mut [u8], at: usize, bytes: &[u8]) {
    b[at..at + bytes.len()].copy_from_slice(bytes);
}

/// A `FILE` record of 1024 bytes that is in use, with the attributes behind its header.
fn record(flags: u16, seq: u16, attributes: &[Vec<u8>]) -> Vec<u8> {
    let mut r = vec![0u8; 1024];
    put(&mut r, 0, b"FILE");
    put(&mut r, 4, &0x30u16.to_le_bytes());
    put(&mut r, 6, &3u16.to_le_bytes());
    put(&mut r, 0x10, &seq.to_le_bytes());
    put(&mut r, 0x14, &0x38u16.to_le_bytes());
    put(&mut r, 0x16, &flags.to_le_bytes());
    let mut at = 0x38;
    for a in attributes {
        put(&mut r, at, a);
        at += a.len();
    }
    put(&mut r, at, &0xFFFF_FFFFu32.to_le_bytes());
    put(&mut r, 0x18, &((at + 8) as u32).to_le_bytes());
    // The update sequence: what stood at the ends of the two sectors.
    for sector in 0..2 {
        let end = sector * 512 + 510;
        let kept = [r[end], r[end + 1]];
        put(&mut r, 0x32 + sector * 2, &kept);
        put(&mut r, end, &[0xAA, 0xBB]);
    }
    r
}

fn resident(kind: u32, content: &[u8]) -> Vec<u8> {
    let len = (0x18 + content.len()).div_ceil(8) * 8;
    let mut a = vec![0u8; len];
    put(&mut a, 0, &kind.to_le_bytes());
    put(&mut a, 4, &(len as u32).to_le_bytes());
    put(&mut a, 0x10, &(content.len() as u32).to_le_bytes());
    put(&mut a, 0x14, &0x18u16.to_le_bytes());
    put(&mut a, 0x18, content);
    a
}

fn standard(created: u64, modified: u64, accessed: u64, attributes: u32) -> Vec<u8> {
    let mut c = vec![0u8; 0x30];
    put(&mut c, 0, &created.to_le_bytes());
    put(&mut c, 8, &modified.to_le_bytes());
    put(&mut c, 0x18, &accessed.to_le_bytes());
    put(&mut c, 0x20, &attributes.to_le_bytes());
    resident(0x10, &c)
}

fn file_name(parent: u64, name: &str, namespace: u8, size: u64) -> Vec<u8> {
    let units: Vec<u8> = name.encode_utf16().flat_map(|u| u.to_le_bytes()).collect();
    let mut c = vec![0u8; 0x42];
    put(&mut c, 0, &(parent | 0x0003_0000_0000_0000).to_le_bytes());
    put(&mut c, 0x30, &size.to_le_bytes());
    c[0x40] = (units.len() / 2) as u8;
    c[0x41] = namespace;
    c.extend_from_slice(&units);
    resident(0x30, &c)
}

fn data_runs(size: u64, runs: &[u8]) -> Vec<u8> {
    let len = (0x40 + runs.len()).div_ceil(8) * 8;
    let mut a = vec![0u8; len];
    put(&mut a, 0, &0x80u32.to_le_bytes());
    put(&mut a, 4, &(len as u32).to_le_bytes());
    a[8] = 1;
    put(&mut a, 0x20, &0x40u16.to_le_bytes());
    put(&mut a, 0x30, &size.to_le_bytes());
    put(&mut a, 0x40, runs);
    a
}

#[test]
fn fixups_restore_the_ends_of_sectors() {
    let mut r = record(1, 1, &[]);
    r[510] = 0xAA;
    put(&mut r, 0x32, &[1, 2, 3, 4]);
    let before = r.clone();
    apply_fixup(&mut r, 512);
    assert_eq!((r[510], r[511], r[1022], r[1023]), (1, 2, 3, 4));
    r[510] = before[510];
    r[511] = before[511];
    r[1022] = before[1022];
    r[1023] = before[1023];
    assert_eq!(r, before);
    let mut short = vec![1u8, 2, 3];
    apply_fixup(&mut short, 512);
    assert_eq!(short, [1, 2, 3]);
}

#[test]
fn runs_are_relative_and_may_be_sparse() {
    let shown = |b: &[u8]| -> Vec<(Option<u64>, u64)> {
        decode_runs(b).iter().map(|r| (r.start_lcn, r.clusters)).collect()
    };
    // 0x18 clusters at 0x5634, then 0x10 more at 0x5634 - 0x100, then a hole of 5.
    assert_eq!(
        shown(&[0x21, 0x18, 0x34, 0x56, 0x21, 0x10, 0x00, 0xFF, 0x01, 0x05, 0x00, 0x77]),
        [(Some(0x5634), 0x18), (Some(0x5534), 0x10), (None, 5)]
    );
    assert!(shown(&[]).is_empty());
    assert!(shown(&[0x00]).is_empty());
    assert!(shown(&[0x21, 0x18]).is_empty());
    assert!(shown(&[0x20, 0x18, 0x34]).is_empty());
}

fn rows(r: Vec<u8>) -> Vec<RawRecord> {
    parse_file_record(r, 77, 512)
}

#[test]
fn a_record_gives_one_row_per_name() {
    let r = record(
        1,
        9,
        &[
            standard(11, 22, 33, 0x30),
            file_name(5, "Lang.txt", 1, 4),
            file_name(5, "LANG~1.TXT", 2, 4),
            file_name(6, "other\u{1F600}", 3, 4),
            resident(0x80, &[7u8; 13]),
        ],
    );
    let out = rows(r.clone());
    assert_eq!(out.len(), 2);
    assert_eq!(out[0].record_no, 77);
    assert_eq!(out[0].parent_no, 5);
    assert_eq!(out[0].name, "Lang.txt");
    assert_eq!(out[0].size, Some(13));
    assert_eq!(
        (out[0].created_ft, out[0].modified_ft, out[0].accessed_ft),
        (11, 22, 33)
    );
    // The directory bit follows the record header.
    assert_eq!(out[0].attributes, 0x20);
    assert!(!out[0].is_dir);
    assert_eq!(out[1].parent_no, 6);
    assert_eq!(out[1].name, "other\u{1F600}");

    let m = parse_meta(r.clone(), 512, 9).unwrap();
    assert_eq!((m.size, m.modified_ft, m.attributes), (Some(13), 22, 0x20));
    assert!(parse_meta(r, 512, 8).is_none());
}

#[test]
fn directories_have_no_size_and_their_attribute() {
    let r = record(3, 1, &[standard(0, 0, 0, 0x2), file_name(5, "d", 1, 99)]);
    let out = rows(r);
    assert!(out[0].is_dir);
    assert_eq!(out[0].size, None);
    assert_eq!(out[0].attributes, 0x12);
}

#[test]
fn sizes_come_from_the_data_or_else_the_name() {
    let out = rows(record(1, 1, &[file_name(5, "a", 1, 99)]));
    assert_eq!(out[0].size, Some(99));
    let out = rows(record(
        1,
        1,
        &[file_name(5, "a", 1, 99), data_runs(5000, &[0x11, 1, 1, 0])],
    ));
    assert_eq!(out[0].size, Some(5000));
}

#[test]
fn records_that_are_not_in_use_give_nothing() {
    assert!(rows(record(0, 1, &[file_name(5, "a", 1, 1)])).is_empty());
    let mut r = record(1, 1, &[file_name(5, "a", 1, 1)]);
    r[0] = b'B';
    assert!(rows(r).is_empty());
    assert!(rows(vec![0; 8]).is_empty());
    assert!(rows(record(1, 1, &[])).is_empty());
}

fn boot() -> Vec<u8> {
    let mut b = vec![0u8; 512];
    put(&mut b, 3, b"NTFS    ");
    put(&mut b, 0x0B, &512u16.to_le_bytes());
    b[0x0D] = 8;
    put(&mut b, 0x30, &4u64.to_le_bytes());
    b[0x40] = 0xF6;
    b
}

fn detail<T>(r: Result<T, IndexError>) -> String {
    match r {
        Err(e) => e.message(),
        Ok(_) => panic!("an error was expected"),
    }
}

#[test]
fn the_boot_sector_gives_the_geometry() {
    let g = parse_boot(&boot(), "C:").unwrap();
    assert_eq!(g.bytes_per_sector, 512);
    assert_eq!(g.bytes_per_cluster, 4096);
    assert_eq!(g.record_size, 1024);
    assert_eq!(g.mft_offset, 16_384);
    let mut b = boot();
    b[0x40] = 2;
    assert_eq!(parse_boot(&b, "C:").unwrap().record_size, 8192);
    b[0x40] = 0;
    assert_eq!(
        detail(parse_boot(&b, "C:")),
        "malformed MFT on C:: zero record or cluster size"
    );
    let mut b = boot();
    b[3] = b'X';
    assert_eq!(detail(parse_boot(&b, "C:")), "C: is not an NTFS volume");
    let mut b = boot();
    put(&mut b, 0x30, &u64::MAX.to_le_bytes());
    assert_eq!(
        detail(parse_boot(&b, "C:")),
        "malformed MFT on C:: table beyond the volume"
    );
}

#[test]
fn the_table_is_planned_in_chunks() {
    let g = parse_boot(&boot(), "C:").unwrap();
    // Four clusters (16 records) at cluster 4, a hole of one, then one cluster at 10.
    let rec0 = record(
        1,
        1,
        &[data_runs(
            23 * 1024,
            &[0x11, 4, 4, 0x01, 1, 0x11, 1, 6, 0],
        )],
    );
    let layout = parse_layout(g, rec0, "C:").unwrap();
    assert_eq!(layout.record_count, 23);
    let plan = layout.read_plan("C:").unwrap();
    let shown: Vec<(u64, u64, u64)> = plan.iter().map(|c| (c.offset, c.first, c.records)).collect();
    assert_eq!(shown, [(4 * 4096, 0, 16), (10 * 4096, 20, 3)]);
    assert_eq!(layout.record_offset(15), Some(4 * 4096 + 15 * 1024));
    assert_eq!(layout.record_offset(17), None);
    assert_eq!(layout.record_offset(21), Some(10 * 4096 + 1024));
    assert_eq!(layout.record_offset(24), None);
    assert_eq!(
        detail(parse_layout(g, vec![0; 1024], "C:")),
        "malformed MFT on C:: $MFT record is not a FILE record"
    );
    let none = parse_mft_data_runs(&record(1, 1, &[]), "C:");
    assert_eq!(
        detail(none),
        "malformed MFT on C:: no non-resident $DATA attribute on $MFT"
    );
}

#[test]
fn long_runs_are_cut_and_impossible_ones_refused() {
    let g = Geometry {
        bytes_per_sector: 512,
        bytes_per_cluster: 4096,
        record_size: 1024,
        mft_offset: 0,
    };
    let layout = Layout {
        geometry: g,
        runs: vec![Run {
            start_lcn: Some(1),
            clusters: CHUNK_RECORDS,
        }],
        record_count: CHUNK_RECORDS + 1,
    };
    let plan = layout.read_plan("C:").unwrap();
    assert_eq!(plan.len(), 2);
    assert_eq!(plan[0].records, CHUNK_RECORDS);
    assert_eq!(plan[1].first, CHUNK_RECORDS);
    assert_eq!(plan[1].records, 1);
    let layout = Layout {
        geometry: g,
        runs: vec![Run {
            start_lcn: Some(1),
            clusters: u64::MAX,
        }],
        record_count: 5,
    };
    assert_eq!(
        detail(layout.read_plan("C:")),
        "malformed MFT on C:: run beyond the volume"
    );
}

#[test]
fn a_chunk_gives_the_rows_of_its_records() {
    let g = parse_boot(&boot(), "C:").unwrap();
    let mut buf = record(1, 1, &[file_name(5, "one", 1, 1)]);
    buf.extend(record(0, 1, &[file_name(5, "gone", 1, 1)]));
    buf.extend(record(1, 1, &[file_name(5, "two", 1, 1)]));
    let layout = Layout {
        geometry: g,
        runs: vec![Run {
            start_lcn: Some(0),
            clusters: 1,
        }],
        record_count: 3,
    };
    let plan = layout.read_plan("C:").unwrap();
    let out = parse_chunk(&buf, g, plan[0]);
    let shown: Vec<(u64, &str)> = out.iter().map(|r| (r.record_no, r.name.as_str())).collect();
    assert_eq!(shown, [(0, "one"), (2, "two")]);
}

fn usn_record(file: u64, parent: u64, reason: u32, attributes: u32, name: &str) -> Vec<u8> {
    let units: Vec<u8> = name.encode_utf16().flat_map(|u| u.to_le_bytes()).collect();
    let len = (60 + units.len()).div_ceil(8) * 8;
    let mut r = vec![0u8; len];
    put(&mut r, 0, &(len as u32).to_le_bytes());
    put(&mut r, 8, &file.to_le_bytes());
    put(&mut r, 16, &parent.to_le_bytes());
    put(&mut r, 32, &55u64.to_le_bytes());
    put(&mut r, 40, &reason.to_le_bytes());
    put(&mut r, 52, &attributes.to_le_bytes());
    put(&mut r, 56, &(units.len() as u16).to_le_bytes());
    put(&mut r, 58, &60u16.to_le_bytes());
    put(&mut r, 60, &units);
    r
}

#[test]
fn the_journal_reports_final_changes() {
    let mut buf = vec![0u8; 8];
    buf.extend(usn_record(0x0007_0000_0000_0030, 0x0001_0000_0000_0005, 0x100, 0x20, "early"));
    buf.extend(usn_record(0x0007_0000_0000_0030, 0x0001_0000_0000_0005, 0x8000_0100, 0x20, "new.txt"));
    buf.extend(usn_record(0x31, 5, 0x8000_0200, 0x20, "gone"));
    buf.extend([9u8; 20]);
    let events = parse_records(&buf);
    assert_eq!(events.len(), 2);
    match &events[0] {
        Event::Upsert(raw, seq) => {
            assert_eq!(raw.record_no, 0x30);
            assert_eq!(raw.parent_no, 5);
            assert_eq!(raw.name, "new.txt");
            assert_eq!(raw.modified_ft, 55);
            assert_eq!(raw.attributes, 0x20);
            assert!(!raw.is_dir);
            assert_eq!(*seq, 7);
        }
        Event::Delete(_) => panic!("a change was expected"),
    }
    assert!(matches!(events[1], Event::Delete(0x31)));
    assert!(parse_records(&[0; 3]).is_empty());
}

fn meta() -> RecordMeta {
    RecordMeta {
        size: Some(8),
        modified_ft: 1,
        created_ft: 2,
        accessed_ft: 3,
        attributes: 4,
    }
}

fn raw(record: u64, name: &str) -> RawRecord {
    RawRecord {
        record_no: record,
        parent_no: 5,
        name: name.into(),
        is_dir: false,
        size: None,
        modified_ft: 55,
        created_ft: 0,
        accessed_ft: 0,
        attributes: 32,
    }
}

#[test]
fn changes_are_enriched_by_a_read_of_the_record() {
    let r = enrich(raw(9, "a"), Some(meta()));
    assert_eq!(r.size, Some(8));
    assert_eq!((r.modified_ft, r.created_ft, r.accessed_ft, r.attributes), (1, 2, 3, 4));
    assert_eq!(r.name, "a");
    let r = enrich(raw(9, "a"), None);
    assert_eq!((r.size, r.modified_ft, r.attributes), (None, 55, 32));
    let mut dir = raw(9, "d");
    dir.is_dir = true;
    assert_eq!(enrich(dir, Some(meta())).size, None);
}

#[test]
fn events_change_the_index() {
    let mut index = SearchIndex::import('C', Vec::<EntrySnapshot>::new());
    apply_event(&mut index, Event::Upsert(raw(9, "a"), 1), Some(meta()));
    assert_eq!(index.len(), 1);
    assert_eq!(index.entries[0].size, Some(8));
    apply_event(&mut index, Event::Upsert(raw(9, "b"), 1), None);
    assert_eq!(index.len(), 1);
    assert_eq!(index.entries[0].name, "b");
    apply_event(&mut index, Event::Delete(9), None);
    assert_eq!(index.len(), 0);
    apply_event(&mut index, Event::Delete(9), None);
    assert_eq!(index.len(), 0);
}

#[test]
fn the_journal_state_is_read_off_its_report() {
    let mut data = vec![0u8; 32];
    put(&mut data, 0, &7u64.to_le_bytes());
    put(&mut data, 16, &(-5i64).to_le_bytes());
    put(&mut data, 24, &3i64.to_le_bytes());
    let s = journal_state(&data).unwrap();
    assert_eq!((s.journal_id, s.next_usn, s.lowest_valid_usn), (7, -5, 3));
    assert!(journal_state(&data[..31]).is_none());
}

fn state() -> JournalState {
    JournalState {
        journal_id: 7,
        next_usn: 100,
        lowest_valid_usn: 10,
    }
}

#[test]
fn a_replay_reads_up_to_the_journals_end() {
    assert!(Replay::start(None, 7, 50).is_none());
    assert!(Replay::start(Some(state()), 8, 50).is_none());
    assert!(Replay::start(Some(state()), 7, 9).is_none());
    let mut r = Replay::start(Some(state()), 7, 50).unwrap();
    assert!(r.step() == ReplayStep::Read { journal_id: 7, start_usn: 50 });
    assert!(r.after_read(Some(70)) == ReplayStep::Read { journal_id: 7, start_usn: 70 });
    let mut stuck = r;
    assert!(stuck.after_read(Some(70)) == ReplayStep::Done(CatchUp::Caught { next_usn: 70 }));
    let mut failed = r;
    assert!(failed.after_read(None) == ReplayStep::Done(CatchUp::Stale));
    assert!(r.after_read(Some(120)) == ReplayStep::Done(CatchUp::Caught { next_usn: 120 }));
    let done = Replay::start(Some(state()), 7, 100).unwrap();
    assert!(done.step() == ReplayStep::Done(CatchUp::Caught { next_usn: 100 }));
}

#[test]
fn a_watch_follows_the_journal() {
    let mut w = Watch::start(state(), None);
    assert_eq!((w.journal_id, w.next_usn), (7, 100));
    assert_eq!(Watch::start(state(), Some(60)).next_usn, 60);
    let mut buf = 111i64.to_le_bytes().to_vec();
    assert!(!w.after_read(&buf));
    assert_eq!(w.next_usn, 111);
    buf.push(0);
    assert!(w.after_read(&buf));
    w.after_error(None);
    assert_eq!(w.next_usn, 111);
    w.after_error(Some(JournalState { journal_id: 8, next_usn: 1, lowest_valid_usn: 0 }));
    assert_eq!((w.journal_id, w.next_usn), (8, 1));
}

fn facts(kind: u32, name: &str) -> DriveFacts {
    let mut units: Vec<u16> = name.encode_utf16().collect();
    units.resize(16, 0);
    DriveFacts {
        kind,
        file_system: Some(units),
    }
}

#[test]
fn only_fixed_ntfs_volumes_are_indexed() {
    assert!(is_ntfs_fixed(&facts(3, "NTFS")));
    assert!(is_ntfs_fixed(&facts(3, "ntfs")));
    assert!(!is_ntfs_fixed(&facts(2, "NTFS")));
    assert!(!is_ntfs_fixed(&facts(3, "FAT32")));
    assert!(!is_ntfs_fixed(&DriveFacts { kind: 3, file_system: None }));
    let drives = vec![('C', facts(3, "NTFS")), ('D', facts(5, "UDF")), ('E', facts(3, "NTFS"))];
    assert_eq!(ntfs_fixed_drives(&drives), ['C', 'E']);
    assert_eq!(drive_letters(0b1_0001_0100), ['C', 'E', 'I']);
    assert_eq!(drive_letters(u32::MAX).len(), 26);
}

#[test]
fn volumes_have_their_paths_and_errors() {
    assert_eq!(root_path('C'), "C:\\");
    assert_eq!(device_path('C'), "\\\\.\\C:");
    assert_eq!(
        open_error('C', 5).message(),
        "access denied opening C: \u{2014} run AllTheThings as Administrator"
    );
    assert_eq!(open_error('C', 32).message(), "failed to open volume C:: OS error 32");
    assert_eq!(
        read_error('C', 4096, 0).message(),
        "I/O error reading C: at offset 4096: OS error 0"
    );
}

#[test]
fn a_read_goes_on_until_it_is_full() {
    let mut f = Fill::new(10);
    assert!(f.step() == FillStep::Read { want: 10 });
    assert!(f.got(4) == FillStep::Read { want: 6 });
    let mut ended = f;
    assert!(ended.got(0) == FillStep::Ended);
    assert!(f.got(6) == FillStep::Full);
    assert!(Fill::new(0).step() == FillStep::Full);
    assert_eq!(transfer_size(12), 12);
    assert_eq!(transfer_size(usize::MAX), u32::MAX);
}
