use allthethings::cache::{file_name, temp_file_name, Snapshot, FORMAT_VERSION};
use allthethings::catalog::Catalog;
use allthethings::cli::{exit_code, launch, parse_search_here, AdminCommand, Launch};
use allthethings::elevation::{run_elevated, Relaunch};
use allthethings::fileops::{
    move_failed, name_taken, new_name, recycled, rename_action, reveal_argument, shell_action,
    shell_verb, RenameAction, ShellVerb,
};
use allthethings::hotkey::{accelerator, rejected};
use allthethings::icons::{icon_base64, icon_query, icon_rgba, png_text};
use allthethings::index::{EntrySnapshot, SearchIndex};
use allthethings::indexing::{from_cache, refresh, scanned, IndexedVolume, Indexer};
use allthethings::scm::SvcState;
use allthethings::settings::{
    service_prompt_seen, set_hotkey, suggests_service, HotkeyChange, MenuAction, Settings,
    SettingsChange, TaskAction,
};
use allthethings::shellmenu::{
    command_key, created, deleted, is_registered, unregister, value_set, verb_command, write_verb,
    VerbStep, DIRECTORY_KEY,
};
use allthethings::startup::{create_arguments, registered, task_command};
use allthethings::usn::{CatchUp, JournalState};
use allthethings::wide::{wide, wide_list};
use allthethings::window::{hides, tray_action, TrayAction};
use base64::Engine;

#[test]
fn rename_rejects_invalid_names() {
    assert!(new_name("").is_err());
    assert!(new_name("  ").is_err());
    assert!(new_name("b\\c.txt").is_err());
    assert!(new_name("a:b").is_err());
    assert!(new_name("..").is_err());
}

#[test]
fn rename_takes_the_name_without_spaces_around() {
    assert_eq!(new_name("  a b.txt\t").unwrap(), "a b.txt");
    assert_eq!(new_name(" ").unwrap_err(), "Name cannot be empty");
    assert_eq!(new_name(".").unwrap_err(), "Name contains invalid characters");
    assert_eq!(new_name("...").unwrap(), "...");
    for c in ['\\', '/', ':', '*', '?', '"', '<', '>', '|'] {
        assert!(new_name(&format!("a{c}b")).is_err());
    }
}

#[test]
fn rename_never_overwrites_another_item() {
    assert_eq!(rename_action(true, true, true), RenameAction::Keep);
    assert_eq!(rename_action(false, true, false), RenameAction::Refuse);
    assert_eq!(rename_action(false, true, true), RenameAction::Move { replace: true });
    assert_eq!(rename_action(false, false, false), RenameAction::Move { replace: false });
    assert_eq!(name_taken("a"), "\"a\" already exists");
    assert_eq!(move_failed(32), "rename failed (code 32)");
}

#[test]
fn recycling_has_an_outcome() {
    assert_eq!(recycled(0, false), Ok(()));
    assert_eq!(recycled(-3, true), Err("delete failed (code -3)".into()));
    assert_eq!(recycled(0, true), Err("delete was cancelled".into()));
}

#[test]
fn shell_verbs_are_known_by_action() {
    assert_eq!(ShellVerb::parse("properties"), Some(ShellVerb::Properties));
    assert_eq!(ShellVerb::parse("open_with"), Some(ShellVerb::OpenWith));
    assert_eq!(ShellVerb::parse("run_as"), Some(ShellVerb::RunAsAdmin));
    assert_eq!(ShellVerb::parse("open"), None);
    assert_eq!(ShellVerb::OpenWith.verb(), "openas");
    assert_eq!(ShellVerb::RunAsAdmin.verb(), "runas");
    assert_eq!(ShellVerb::Properties.verb(), "properties");
    assert_eq!(shell_action("x").unwrap_err(), "unknown action 'x'");
    assert_eq!(shell_action("run_as"), Ok(ShellVerb::RunAsAdmin));
    assert_eq!(shell_verb(ShellVerb::OpenWith, None), Ok(()));
    assert_eq!(shell_verb(ShellVerb::RunAsAdmin, Some(1223)), Ok(()));
    assert_eq!(
        shell_verb(ShellVerb::OpenWith, Some(2)),
        Err("shell action 'openas' failed".into())
    );
}

#[test]
fn revealed_paths_stay_inside_their_quotes() {
    assert_eq!(reveal_argument("C:\\a b").unwrap(), "/select,\"C:\\a b\"");
    assert_eq!(reveal_argument("a\"b").unwrap_err(), "invalid path");
    for u in 0..=0x10FFFFu32 {
        if let Some(c) = char::from_u32(u) {
            let expected = c != '"' && !c.is_control();
            assert_eq!(reveal_argument(&c.to_string()).is_ok(), expected, "{u:x}");
        }
    }
}

#[test]
fn wide_texts_are_utf16() {
    for s in ["", "abc", "h\u{e9}\u{20ac}", "\u{1F600}x\u{10FFFF}"] {
        let mut expected: Vec<u16> = s.encode_utf16().collect();
        expected.push(0);
        assert_eq!(wide(s), expected);
        expected.push(0);
        assert_eq!(wide_list(s), expected);
        assert_eq!(String::from_utf16(&wide(s)).unwrap(), format!("{s}\0"));
    }
}

#[test]
fn icons_are_asked_for_by_type() {
    assert_eq!(icon_query(Some("txt"), false), ("x.txt".to_string(), 0x80));
    assert_eq!(icon_query(None, false), ("x.dat".to_string(), 0x80));
    assert_eq!(icon_query(Some("txt"), true), ("folder".to_string(), 0x10));
}

#[test]
fn icon_pixels_become_rgba() {
    let color = vec![1, 2, 3, 0, 4, 5, 6, 9];
    let mask = vec![0; 8];
    assert_eq!(icon_rgba(&color, &mask), [3, 2, 1, 0, 6, 5, 4, 9]);
    // Without any alpha the mask decides: white is transparent.
    let color = vec![1, 2, 3, 0, 4, 5, 6, 0];
    let mask = vec![0, 0, 0, 0, 255, 255, 255, 0];
    assert_eq!(icon_rgba(&color, &mask), [3, 2, 1, 255, 6, 5, 4, 0]);
}

#[test]
fn an_icon_is_a_base64_png() {
    let color = vec![1, 2, 3, 4, 5, 6, 7, 8];
    let text = icon_base64(2, 1, &color, &vec![0; 8]).unwrap();
    let file = base64::engine::general_purpose::STANDARD.decode(&text).unwrap();
    let mut reader = png::Decoder::new(&file[..]).read_info().unwrap();
    let mut pixels = vec![0; 8];
    let info = reader.next_frame(&mut pixels).unwrap();
    assert_eq!((info.width, info.height), (2, 1));
    assert_eq!(info.color_type, png::ColorType::Rgba);
    assert_eq!(pixels, [3, 2, 1, 4, 7, 6, 5, 8]);
    assert!(icon_base64(0, 1, &vec![], &vec![]).is_none());
    assert!(icon_base64(1, -1, &vec![], &vec![]).is_none());
}

#[test]
fn base64_is_padded() {
    assert_eq!(png_text(&b"".to_vec()).unwrap(), "");
    assert_eq!(png_text(&b"f".to_vec()).unwrap(), "Zg==");
    assert_eq!(png_text(&b"fo".to_vec()).unwrap(), "Zm8=");
    assert_eq!(png_text(&b"foobar".to_vec()).unwrap(), "Zm9vYmFy");
    assert_eq!(png_text(&vec![0xFB, 0xFF, 0xBF]).unwrap(), "+/+/");
}

#[test]
fn settings_have_defaults() {
    let s = Settings::default();
    assert!(s.close_to_tray);
    assert!(!s.run_at_startup);
    assert!(!s.explorer_menu);
    assert_eq!(s.hotkey, "Ctrl+Alt+Space");
    let r = s.clone().reconciled(true, true);
    assert!(r.run_at_startup && r.explorer_menu && r.close_to_tray);
    assert_eq!(r.hotkey, s.hotkey);
}

#[test]
fn a_change_of_settings_keeps_what_it_can() {
    let wanted = Settings {
        close_to_tray: false,
        run_at_startup: true,
        explorer_menu: true,
        hotkey: "ignored".into(),
    };
    let mut change = SettingsChange::new(wanted);
    assert_eq!(change.task_action(true, false), TaskAction::Keep);
    assert_eq!(change.task_action(false, true), TaskAction::Apply { enable: true });
    assert_eq!(change.task_action(false, false), TaskAction::Relaunch { enable: true });
    assert_eq!(change.menu_action(false), MenuAction::Register);
    assert_eq!(change.menu_action(true), MenuAction::Keep);
    change.done(Ok(()));
    change.done(Err("first".into()));
    change.done(Err("second".into()));
    let settled = change.settled(false, true, &Settings::default());
    assert!(!settled.close_to_tray);
    assert!(!settled.run_at_startup);
    assert!(settled.explorer_menu);
    assert_eq!(settled.hotkey, "Ctrl+Alt+Space");
    assert_eq!(change.outcome(Err("save".into())), Err("first".into()));
    let quiet = SettingsChange::new(Settings::default());
    assert_eq!(quiet.menu_action(true), MenuAction::Unregister);
    assert_eq!(quiet.outcome(Err("save".into())), Err("save".into()));
}

#[test]
fn a_rejected_hotkey_is_restored() {
    match set_hotkey(Settings::default(), "Alt+X".into(), Ok(())) {
        HotkeyChange::Store(s) => assert_eq!(s.hotkey, "Alt+X"),
        HotkeyChange::Restore { .. } => panic!("it was registered"),
    }
    match set_hotkey(Settings::default(), "Alt+X".into(), Err("owned".into())) {
        HotkeyChange::Restore { hotkey, problem } => {
            assert_eq!(hotkey, "Ctrl+Alt+Space");
            assert_eq!(problem, "owned");
        }
        HotkeyChange::Store(_) => panic!("it was rejected"),
    }
    assert_eq!(accelerator("  Alt+X "), Some("Alt+X".into()));
    assert_eq!(accelerator(" "), None);
    assert_eq!(rejected("Alt+X", "owned"), "could not register hotkey 'Alt+X': owned");
    assert!(hides(true, true));
    assert!(!hides(true, false));
    assert!(!hides(false, true));
}

#[test]
fn the_service_is_suggested_once() {
    assert!(service_prompt_seen(None));
    assert!(service_prompt_seen(Some(true)));
    assert!(!service_prompt_seen(Some(false)));
    assert!(suggests_service(false, true, &Ok(SvcState::NotInstalled)));
    assert!(!suggests_service(true, true, &Ok(SvcState::NotInstalled)));
    assert!(!suggests_service(false, false, &Ok(SvcState::NotInstalled)));
    assert!(!suggests_service(false, true, &Ok(SvcState::Stopped)));
    assert!(!suggests_service(false, true, &Err("x".into())));
}

#[test]
fn the_explorer_menu_is_written_whole_or_not_at_all() {
    assert!(is_registered(true, true));
    assert!(!is_registered(true, false));
    assert_eq!(unregister(Ok(()), Err("b".into())), Err("b".into()));
    assert_eq!(unregister(Err("a".into()), Err("b".into())), Err("a".into()));
    assert_eq!(verb_command("C:\\x.exe", "%1"), "\"C:\\x.exe\" --search-here \"%1\"");
    assert_eq!(command_key("K"), "K\\command");
    assert_eq!(created("K", 0), Ok(()));
    assert_eq!(created("K", 5), Err("registry create failed for K (error 5)".into()));
    assert_eq!(value_set(5), Err("registry set value failed (error 5)".into()));
    assert_eq!(deleted("K", 2), Ok(()));
    assert_eq!(deleted("K", 5), Err("registry delete failed for K (error 5)".into()));
    assert!(DIRECTORY_KEY.ends_with("\\shell\\AllTheThings"));

    let run = |fail_at: usize| -> (usize, Result<(), String>, bool) {
        let mut step = VerbStep::CreateBase;
        let mut steps = 0;
        let mut rolled_back = false;
        loop {
            if let VerbStep::Done(r) = step {
                return (steps, r, rolled_back);
            }
            rolled_back |= matches!(step, VerbStep::RollBack { .. });
            let outcome = if steps == fail_at { Err(format!("{steps}")) } else { Ok(()) };
            step = write_verb(step, outcome);
            steps += 1;
        }
    };
    assert_eq!(run(99), (5, Ok(()), false));
    for at in 0..5 {
        let (_, result, rolled_back) = run(at);
        assert_eq!(result, Err(format!("{at}")));
        assert!(rolled_back);
    }
}

#[test]
fn the_logon_task_starts_into_the_tray() {
    assert_eq!(task_command("C:\\x.exe"), "\"C:\\x.exe\" --minimized");
    assert_eq!(
        create_arguments("x"),
        ["/create", "/tn", "AllTheThings", "/tr", "\"x\" --minimized", "/sc", "onlogon", "/f"]
    );
    assert_eq!(registered(Ok(true)), Ok(()));
    assert_eq!(
        registered(Ok(false)),
        Err("schtasks failed to create the startup task (admin required)".into())
    );
    assert_eq!(registered(Err("x".into())), Err("x".into()));
}

#[test]
fn an_elevated_relaunch_has_an_outcome() {
    assert_eq!(run_elevated(Relaunch::Exited { code: 0 }), Ok(()));
    let message = |r: Relaunch| run_elevated(r).unwrap_err();
    assert_eq!(message(Relaunch::Failed { code: 1223 }), "elevation was declined");
    assert_eq!(
        message(Relaunch::Failed { code: 2 }),
        "could not relaunch elevated (error 2)"
    );
    assert_eq!(message(Relaunch::NotStarted), "the elevated helper did not start");
    assert_eq!(message(Relaunch::NoResult), "could not read the elevated helper's result");
    assert_eq!(
        message(Relaunch::Exited { code: 1 }),
        "the service operation failed when run elevated"
    );
}

fn args(list: &[&str]) -> Vec<String> {
    list.iter().map(|a| a.to_string()).collect()
}

#[test]
fn the_command_line_decides_the_launch() {
    assert!(matches!(launch(&args(&["x", "--svc-stop", "--service"])), Launch::Service));
    assert!(matches!(
        launch(&args(&["x", "--svc-stop", "--task-install"])),
        Launch::Admin(AdminCommand::SvcStop)
    ));
    match launch(&args(&["x", "--svc-odd", "--svc-stop"])) {
        Launch::Gui(f) => assert!(!f.start_hidden && f.search_here.is_none()),
        _ => panic!("an unknown command falls through"),
    }
    match launch(&args(&["x", "--minimized", "--search-here", "C:\\a"])) {
        Launch::Gui(f) => {
            assert!(f.start_hidden);
            assert_eq!(f.search_here.as_deref(), Some("C:\\a"));
        }
        _ => panic!("a normal launch"),
    }
    for c in [
        AdminCommand::SvcInstall,
        AdminCommand::SvcUninstall,
        AdminCommand::SvcStart,
        AdminCommand::SvcStop,
        AdminCommand::SvcSetup,
        AdminCommand::TaskInstall,
        AdminCommand::TaskUninstall,
    ] {
        assert_eq!(AdminCommand::parse(c.argument()), Some(c));
    }
    assert_eq!(AdminCommand::parse("--svc"), None);
    assert_eq!(exit_code(&Ok(())), 0);
    assert_eq!(exit_code(&Err("x".into())), 1);
}

#[test]
fn the_searched_folder_is_cleaned() {
    assert_eq!(parse_search_here(&args(&["--search-here", "C:\""])).as_deref(), Some("C:"));
    assert_eq!(parse_search_here(&args(&["--search-here", "C:\\a\\"])).as_deref(), Some("C:\\a"));
    assert_eq!(parse_search_here(&args(&["--search-here", "\\\""])), None);
    assert_eq!(parse_search_here(&args(&["--search-here"])), None);
    assert_eq!(parse_search_here(&args(&["C:"])), None);
}

#[test]
fn tray_items_act() {
    assert_eq!(tray_action("show"), TrayAction::Show);
    assert_eq!(tray_action("settings"), TrayAction::Settings);
    assert_eq!(tray_action("quit"), TrayAction::Quit);
    assert_eq!(tray_action(""), TrayAction::Ignore);
}

fn entry(record: u64, name: &str) -> EntrySnapshot {
    EntrySnapshot {
        record,
        parent: 5,
        name: name.into(),
        is_dir: false,
        size: Some(1),
        modified_ms: None,
        created_ms: None,
        accessed_ms: None,
        attributes: 0,
    }
}

fn journal() -> JournalState {
    JournalState {
        journal_id: 7,
        next_usn: 70,
        lowest_valid_usn: 0,
    }
}

#[test]
fn indexing_goes_through_its_phases() {
    let mut i = Indexer::new();
    let s = i.status(0);
    assert_eq!((s.state.as_str(), s.volume.as_str()), ("indexing", "volumes"));
    assert_eq!(i.volume_label(), "\u{2014}");
    assert!(i.found(vec!['C', 'D']));
    assert_eq!(i.next_drive(), Some('C'));
    let s = i.status(4);
    assert_eq!((s.state.as_str(), s.volume.as_str(), s.count), ("indexing", "C:", 4));
    i.online('C', 99, 10);
    assert_eq!(i.next_drive(), Some('D'));
    i.failed("denied".into());
    assert_eq!(i.next_drive(), None);
    assert_eq!(i.status(2).count, 12);
    assert!(i.finish());
    let s = i.status(0);
    assert_eq!((s.state.as_str(), s.volume.as_str(), s.count), ("ready", "C: D:", 10));
    assert_eq!(i.indexed, [IndexedVolume { drive: 'C', serial: 99 }]);
}

#[test]
fn indexing_fails_without_a_volume() {
    let mut i = Indexer::new();
    assert!(!i.found(vec![]));
    let s = i.status(0);
    assert_eq!(s.state, "error");
    assert_eq!(s.message, "no fixed NTFS volumes found \u{2014} run AllTheThings as Administrator");

    let mut i = Indexer::new();
    assert!(i.found(vec!['C']));
    assert_eq!(i.next_drive(), Some('C'));
    i.failed("access denied".into());
    assert!(!i.finish());
    let s = i.status(0);
    assert_eq!((s.state.as_str(), s.volume.as_str(), s.count), ("error", "C:", 0));
    assert_eq!(
        s.message,
        "couldn't read the NTFS volumes (access denied) \u{2014} install the background service in Settings, or launch AllTheThings as administrator."
    );
}

#[test]
fn a_cached_index_is_resumed() {
    let index = SearchIndex::import('C', vec![entry(9, "b"), entry(10, "A")]);
    let volume = scanned(index, Some(journal()));
    let snapshot = volume.snapshot('C', 99).unwrap();
    assert_eq!(snapshot.format_version, FORMAT_VERSION);
    assert_eq!((snapshot.journal_id, snapshot.next_usn), (7, 70));

    let resumed = from_cache('C', 99, Some(snapshot)).unwrap();
    assert_eq!(resumed.index.len(), 2);
    assert_eq!(resumed.index.entries[1].name, "A");
    assert_eq!((resumed.journal_id, resumed.from_usn), (7, 70));
    let online = resumed.caught(CatchUp::Caught { next_usn: 80 }).unwrap();
    assert_eq!(online.resume_usn, Some(80));
    assert_eq!(online.journal_id, 7);
}

#[test]
fn a_foreign_cache_is_not_loaded() {
    let snapshot = || Snapshot::new('C', 99, 7, 70, vec![entry(9, "b")]);
    assert!(from_cache('C', 98, Some(snapshot())).is_none());
    assert!(from_cache('D', 99, Some(snapshot())).is_none());
    assert!(from_cache('C', 99, None).is_none());
    let mut old = snapshot();
    old.format_version = 1;
    assert!(from_cache('C', 99, Some(old)).is_none());
    assert!(snapshot().load('C').is_some());
    let resumed = from_cache('C', 99, Some(snapshot())).unwrap();
    assert!(resumed.caught(CatchUp::Stale).is_none());
    assert_eq!(file_name('C'), "C.idx");
    assert_eq!(temp_file_name('C'), "C.idx.tmp");
}

#[test]
fn the_cache_is_refreshed_from_the_catalog() {
    let mut catalog = Catalog::default();
    catalog.upsert_volume(SearchIndex::import('C', vec![entry(9, "b")]));
    let c = IndexedVolume { drive: 'C', serial: 99 };
    let s = refresh(c, Some(journal()), &catalog).unwrap();
    assert_eq!((s.drive, s.volume_serial, s.next_usn), ('C', 99, 70));
    assert_eq!(s.entries.len(), 1);
    assert!(refresh(c, None, &catalog).is_none());
    let d = IndexedVolume { drive: 'D', serial: 1 };
    assert!(refresh(d, Some(journal()), &catalog).is_none());
    let unsaved = scanned(SearchIndex::import('C', vec![]), None);
    assert_eq!(unsaved.journal_id, 0);
    assert!(unsaved.snapshot('C', 99).is_none());
}
