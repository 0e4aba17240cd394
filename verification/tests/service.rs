use allthethings::catalog::Catalog;
use allthethings::hit::SearchResult;
use allthethings::host::{
    next_stage, on_control, run_service, Control, Reaction, Serve, ServiceStep, Stage,
    MAX_INFLIGHT,
};
use allthethings::index::{EntrySnapshot, SearchIndex};
use allthethings::ipc::{
    answer, frame_body, frame_length, read_frame, refuse, write_frame, FrameError, Request,
    Response, ServiceClient, MAX_REQUEST, MAX_RESPONSE, MAX_SERVICE_HITS, PROTOCOL_VERSION,
};
use allthethings::pipe::{accepted, bytes_read, connect, open_mode, ConnectStep};
use allthethings::scm::{
    install, map_state, report, start_needed, status, stop_needed, stops_first, uninstall,
    waits_on, ScmError, ServiceState, SvcState,
};
use allthethings::search::SearchOptions;
use allthethings::status::IndexStatus;

fn json(text: &str) -> Vec<u8> {
    serde_json::to_vec(&text).unwrap()
}

fn pong() -> Vec<u8> {
    let mut fields = serde_json::Map::new();
    fields.insert("protocol_version".into(), PROTOCOL_VERSION.into());
    let mut response = serde_json::Map::new();
    response.insert("Pong".into(), fields.into());
    serde_json::to_vec(&response).unwrap()
}

#[test]
fn frame_roundtrip_over_buffer() {
    let buf = write_frame(&json("Ping")).unwrap();
    let back = read_frame(&buf, MAX_REQUEST).unwrap();
    let request: String = serde_json::from_slice(&back).unwrap();
    assert_eq!(request, "Ping");
}

#[test]
fn two_frames_back_to_back() {
    let mut buf = write_frame(&json("Status")).unwrap();
    let first = buf.len();
    buf.extend(write_frame(&pong()).unwrap());
    let a = read_frame(&buf, MAX_REQUEST).unwrap();
    let b = read_frame(&buf[first..], MAX_RESPONSE).unwrap();
    assert_eq!(a, json("Status"));
    let response: serde_json::Value = serde_json::from_slice(&b).unwrap();
    assert!(response.get("Pong").is_some());
}

#[test]
fn oversized_frame_is_rejected() {
    // A length prefix beyond the cap must error rather than allocate.
    let mut bytes = 64u32.to_le_bytes().to_vec(); // claims 64 bytes
    bytes.extend_from_slice(&[0u8; 64]);
    let err = read_frame(&bytes, 16).unwrap_err();
    assert_eq!(err, FrameError::OverLimit { len: 64, max: 16 });
    assert_eq!(err.message(), "frame of 64 bytes exceeds the 16-byte limit");
}

#[test]
fn frames_are_length_prefixed() {
    assert_eq!(write_frame(b"ab").unwrap(), [2, 0, 0, 0, b'a', b'b']);
    let long = vec![7u8; 0x01_02_03];
    assert_eq!(write_frame(&long).unwrap()[..4], [3, 2, 1, 0]);
    assert_eq!(read_frame(&[2, 0, 0], 10).unwrap_err().message(), "failed to fill whole buffer");
    assert_eq!(
        read_frame(&[2, 0, 0, 0, 1], 10).unwrap_err().message(),
        "connection closed mid-frame"
    );
    assert_eq!(FrameError::TooLarge.message(), "frame too large");
    assert_eq!(frame_length(&[5, 0, 0, 0], 5), Ok(5));
    assert_eq!(frame_length(&[5, 0, 0], 5), Err(FrameError::NoLength));
    assert_eq!(frame_body(2, vec![1, 2]), Ok(vec![1, 2]));
    assert_eq!(frame_body(3, vec![1, 2]), Err(FrameError::MidFrame));
}

fn ready() -> IndexStatus {
    IndexStatus::ready("C:".into(), 3)
}

fn catalog(n: u64) -> Catalog {
    let entries = (0..n)
        .map(|i| EntrySnapshot {
            record: 100 + i,
            parent: 5,
            name: format!("f{i}"),
            is_dir: false,
            size: None,
            modified_ms: None,
            created_ms: None,
            accessed_ms: None,
            attributes: 0,
        })
        .collect();
    let mut c = Catalog::default();
    c.upsert_volume(SearchIndex::import('C', entries));
    c
}

#[test]
fn requests_are_answered() {
    let c = catalog(3);
    assert!(matches!(
        answer(Request::Ping, &c, ready()),
        Response::Pong { protocol_version: PROTOCOL_VERSION }
    ));
    match answer(Request::Status, &c, ready()) {
        Response::Status(s) => assert_eq!((s.state.as_str(), s.count), ("ready", 3)),
        _ => panic!("a status was expected"),
    }
    let options = SearchOptions { query: "f1".into(), ..SearchOptions::default() };
    match answer(Request::Search(options), &c, ready()) {
        Response::Search(r) => assert_eq!((r.total, r.hits.len()), (1, 1)),
        _ => panic!("a result was expected"),
    }
    match refuse("no JSON") {
        Response::Error(m) => assert_eq!(m, "bad request: no JSON"),
        _ => panic!("an error was expected"),
    }
}

#[test]
fn the_service_clamps_the_limit() {
    let c = catalog(MAX_SERVICE_HITS as u64 + 5);
    let options = SearchOptions { limit: usize::MAX, ..SearchOptions::default() };
    match answer(Request::Search(options), &c, ready()) {
        Response::Search(r) => {
            assert_eq!(r.hits.len(), MAX_SERVICE_HITS);
            assert_eq!(r.total, MAX_SERVICE_HITS + 5);
        }
        _ => panic!("a result was expected"),
    }
}

#[test]
fn a_client_uses_a_service_of_its_own_version() {
    let reply = |v: u32| Ok(Response::Pong { protocol_version: v });
    assert!(ServiceClient::probe(&reply(PROTOCOL_VERSION)).is_some());
    assert!(ServiceClient::probe(&reply(PROTOCOL_VERSION + 1)).is_none());
    assert!(ServiceClient::probe(&Ok(Response::Error("x".into()))).is_none());
    assert!(ServiceClient::probe(&Err("gone".into())).is_none());
}

#[test]
fn a_client_degrades_visibly() {
    let client = ServiceClient;
    let result = SearchResult { total: 4, ..SearchResult::default() };
    assert_eq!(client.search(Ok(Response::Search(result))).total, 4);
    let error = |r: SearchResult| r.error.unwrap();
    assert_eq!(error(client.search(Ok(Response::Error("no".into())))), "no");
    assert_eq!(
        error(client.search(Ok(Response::Pong { protocol_version: 1 }))),
        "unexpected response from service"
    );
    assert_eq!(
        error(client.search(Err("gone".into()))),
        "background service unavailable: gone"
    );
    assert_eq!(client.status(Ok(Response::Status(ready()))).state, "ready");
    let s = client.status(Ok(Response::Error("no".into())));
    assert_eq!((s.state.as_str(), s.volume.as_str(), s.message.as_str()), ("error", "service", "no"));
    let s = client.status(Ok(Response::Pong { protocol_version: 1 }));
    assert_eq!(s.message, "unexpected response from service");
    let s = client.status(Err("gone".into()));
    assert_eq!(s.message, "background service unavailable: gone");
}

fn code(code: i32) -> ScmError {
    ScmError::Winapi { code: Some(code), text: "denied".into() }
}

#[test]
fn the_state_of_the_service_is_shown() {
    assert_eq!(status(Ok(Ok(ServiceState::Running))), Ok(SvcState::Running));
    assert_eq!(status(Ok(Ok(ServiceState::Paused))), Ok(SvcState::Other));
    assert_eq!(status(Err(code(1060))), Ok(SvcState::NotInstalled));
    assert_eq!(
        status(Err(code(5))),
        Err("administrator rights are required to manage the service".into())
    );
    assert_eq!(
        status(Ok(Err(code(-7)))),
        Err("service operation failed (error -7): denied".into())
    );
    assert_eq!(status(Err(ScmError::Other("odd".into()))), Err("odd".into()));
    let no_code = ScmError::Winapi { code: None, text: "x".into() };
    assert_eq!(status(Err(no_code)), Err("service operation failed (error 0): x".into()));
    assert_eq!(map_state(ServiceState::Stopped), SvcState::Stopped);
    assert_eq!(map_state(ServiceState::StartPending), SvcState::StartPending);
    assert_eq!(map_state(ServiceState::StopPending), SvcState::StopPending);
}

#[test]
fn managing_the_service_is_idempotent() {
    assert_eq!(install(Ok(())), Ok(()));
    assert_eq!(install(Err(code(1073))), Ok(()));
    assert!(install(Err(code(1))).is_err());
    assert_eq!(uninstall(Ok(())), None);
    assert_eq!(uninstall(Err(code(1060))), Some(Ok(())));
    assert!(matches!(uninstall(Err(code(2))), Some(Err(_))));
    assert!(stops_first(Some(ServiceState::Running)));
    assert!(!stops_first(Some(ServiceState::Stopped)));
    assert!(!stops_first(None));
    assert!(waits_on(false, Some(ServiceState::StopPending)));
    assert!(!waits_on(true, Some(ServiceState::StopPending)));
    assert!(!start_needed(Some(ServiceState::StartPending)));
    assert!(start_needed(Some(ServiceState::Stopped)));
    assert!(start_needed(None));
    assert!(!stop_needed(Some(ServiceState::StopPending)));
    assert!(stop_needed(Some(ServiceState::Paused)));
    assert_eq!(report(Ok(())), Ok(()));
    assert!(report(Err(code(3))).is_err());
}

#[test]
fn the_service_reports_its_states_in_order() {
    let mut stage = Stage::Registered;
    let mut states = vec![];
    loop {
        match run_service(stage) {
            ServiceStep::Report { state, accepts_stop, wait_hint_secs } => {
                states.push((state, accepts_stop, wait_hint_secs));
                assert!(next_stage(stage, false).is_none());
            }
            ServiceStep::Launch => assert_eq!(states.len(), 1),
            ServiceStep::Wait => assert_eq!(states.len(), 2),
            ServiceStep::End => break,
        }
        stage = next_stage(stage, true).unwrap();
    }
    assert_eq!(
        states,
        [
            (ServiceState::StartPending, false, 15),
            (ServiceState::Running, true, 0),
            (ServiceState::StopPending, false, 5),
            (ServiceState::Stopped, false, 0),
        ]
    );
    assert!(next_stage(Stage::StoppedReported, true).is_none());
    assert_eq!(on_control(Control::Stop), Reaction::ShutDown);
    assert_eq!(on_control(Control::Shutdown), Reaction::ShutDown);
    assert_eq!(on_control(Control::Interrogate), Reaction::Accept);
    assert_eq!(on_control(Control::Other), Reaction::Reject);
}

#[test]
fn the_accept_loop_survives_clients() {
    let mut s = Serve::new();
    assert_eq!(
        s.failed("taken").unwrap_err(),
        "failed to host pipe \\\\.\\pipe\\AllTheThings: taken"
    );
    assert!(s.accepted(MAX_INFLIGHT - 1));
    assert!(!s.accepted(MAX_INFLIGHT));
    assert!(s.failed("odd").is_ok());
}

#[test]
fn pipes_are_opened_and_read() {
    assert_eq!(open_mode(true), 0x0008_0003);
    assert_eq!(open_mode(false), 3);
    assert_eq!(accepted(None), Ok(()));
    assert_eq!(accepted(Some(535)), Ok(()));
    assert_eq!(accepted(Some(6)), Err(6));
    assert_eq!(bytes_read(4, None), Ok(4));
    assert_eq!(bytes_read(4, Some(109)), Ok(0));
    assert_eq!(bytes_read(4, Some(5)), Err(5));
    assert_eq!(connect(231, true), ConnectStep::WaitFree);
    assert_eq!(connect(2, false), ConnectStep::Pause);
    assert_eq!(connect(2, true), ConnectStep::Fail { code: 2 });
    assert_eq!(connect(5, false), ConnectStep::Fail { code: 5 });
}
