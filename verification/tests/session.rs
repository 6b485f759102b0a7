use mx_replay_uploader::gbx_parser::{parse_from_bytes, GbxHeader};
use mx_replay_uploader::logs::{Log, LogKind};
use mx_replay_uploader::mx_client::client_error::ClientError;
use mx_replay_uploader::mx_client::upload_response::{Replay, UploadResponse, UploadedMap};
use mx_replay_uploader::pref::Pref;
use mx_replay_uploader::session::{
    after_connect, folder_form_needed, next_screen, is_replay_file, login_form_needed,
    on_close_request, record_log, upload_report, watching_log, ClosingState, ReplayQueue,
    ScreenAction, ScreenEvent, State,
};

fn replay(uid: &str, name: &str, best: u32) -> GbxHeader {
    let xml = format!(
        r#"<header type="replay"><map uid="{uid}" name="{name}" author="a"/><times best="{best}"/></header>"#
    );
    let mut buffer = b"GBX0123456789".to_vec();
    buffer.extend_from_slice(xml.as_bytes());
    parse_from_bytes(format!("{name}.Gbx"), &buffer).unwrap()
}

fn names(q: &ReplayQueue, order: &[usize]) -> Vec<String> {
    order.iter().map(|&i| q.get(i).0.name().to_string()).collect()
}

#[test]
fn queue_keeps_one_replay_per_map() {
    let mut q = ReplayQueue::new();
    assert!(q.is_empty());
    q.insert(replay("A", "first", 1000), 10);
    q.insert(replay("B", "second", 2000), 5);
    q.insert(replay("A", "first again", 900), 20);
    assert_eq!(q.len(), 2);
    let (h, t) = q.get(0);
    assert_eq!(h.name(), "first again");
    assert_eq!(h.time(), "0.900");
    assert_eq!(t, 20);
}

#[test]
fn queue_lists_by_save_time() {
    let mut q = ReplayQueue::new();
    q.insert(replay("A", "a", 1), 30);
    q.insert(replay("B", "b", 1), 10);
    q.insert(replay("C", "c", 1), 20);
    q.insert(replay("D", "d", 1), 10);
    let order = q.order_by_time();
    assert_eq!(order, vec![1, 3, 2, 0]);
    assert_eq!(names(&q, &order), vec!["b", "d", "c", "a"]);
}

#[test]
fn queue_take_all_empties() {
    let mut q = ReplayQueue::new();
    q.insert(replay("A", "a", 1), 1);
    q.insert(replay("B", "b", 1), 2);
    let taken = q.take_all();
    assert_eq!(taken.len(), 2);
    assert_eq!(taken[0].uid(), "A");
    assert_eq!(taken[1].uid(), "B");
    assert!(q.is_empty());
    assert!(q.take_all().is_empty());
}

#[test]
fn replay_file_names() {
    assert!(is_replay_file("C:/Replays/Autosaves/x.Replay.Gbx"));
    assert!(is_replay_file(".Gbx"));
    assert!(!is_replay_file("x.gbx"));
    assert!(!is_replay_file("x.Gbx.tmp"));
    assert!(!is_replay_file("Gbx"));
}

#[test]
fn forms_shown_when_needed() {
    let full = Pref {
        autosave_path: Some(String::from("/r")),
        username: Some(String::from("u")),
        password: Some(String::from("p")),
    };
    assert!(!login_form_needed(false, &None, &full));
    assert!(login_form_needed(true, &None, &full));
    assert!(login_form_needed(false, &Some(String::from("e")), &full));
    let no_password = Pref { password: None, ..full.clone() };
    assert!(login_form_needed(false, &None, &no_password));
    assert!(!folder_form_needed(false, &None, &full));
    let no_folder = Pref { autosave_path: None, ..full.clone() };
    assert!(folder_form_needed(false, &None, &no_folder));
    assert!(folder_form_needed(true, &None, &full));
}

#[test]
fn screens_after_connect() {
    let (state, log) = after_connect(&Ok(()));
    assert!(matches!(state, State::ReplayFolder(false, None)));
    assert_eq!(log.to_string(), "[Client] Connected to ManiaExchange");
    let (state, log) = after_connect(&Err(ClientError::NoMapId));
    match state {
        State::Credentials(false, Some(m)) => assert_eq!(m, "Error connecting to ManiaExchange"),
        other => panic!("unexpected {other:?}"),
    }
    assert_eq!(
        log.value,
        "Error connecting to ManiaExchange: Map does not exist on Mania Exchange"
    );
}

#[test]
fn upload_log_lines() {
    let ok = UploadResponse {
        success: true,
        error: None,
        map: UploadedMap { map_id: 1, name: String::from("m") },
        replay: Replay { replay_time: 1, replay_points: 1, position: 2, score: 1 },
    };
    let l = upload_report("Spaghetti", &Ok(ok));
    assert!(matches!(l.kind, LogKind::Upload));
    assert_eq!(l.value, "Replay on \"Spaghetti\" uploaded, new rank 3");
    let l = upload_report("Spaghetti", &Err(ClientError::Upload(String::from("dup"))));
    assert_eq!(l.value, "Replay on \"Spaghetti\" not uploaded : Upload error: dup");
}

#[test]
fn record_and_watch_lines() {
    let l = record_log(&replay("A", "$f00Red Map", 61001));
    assert_eq!(l.to_string(), "[Record] \"Red Map\" : 1'01.001");
    let l = watching_log("/home/me/Replays");
    assert_eq!(l.to_string(), "[Watcher] Watching /home/me/Replays for new replays...");
}

#[test]
fn log_lines_render() {
    let l = Log { kind: LogKind::Watcher, value: String::from("hello") };
    assert_eq!(l.to_string(), "[Watcher] hello");
    assert_eq!(LogKind::Client.to_string(), "Client");
    assert_eq!(LogKind::Record.to_string(), "Record");
    assert_eq!(LogKind::Upload.to_string(), "Upload");
}

#[test]
fn closing_waits_for_uploads() {
    assert_eq!(on_close_request(ClosingState::Open, true), (ClosingState::Uploading, true));
    assert_eq!(on_close_request(ClosingState::Open, false), (ClosingState::Open, false));
    assert_eq!(on_close_request(ClosingState::Uploading, false), (ClosingState::Uploading, true));
    assert_eq!(on_close_request(ClosingState::Closing, true), (ClosingState::Closing, false));
    // Once the close waits for an upload, later requests stay cancelled.
    assert_eq!(on_close_request(ClosingState::Uploading, true), (ClosingState::Uploading, true));
}

#[test]
fn screen_transitions() {
    let (s, a) = next_screen(State::Credentials(false, None), ScreenEvent::CredentialsReady);
    assert!(matches!(s, State::Connecting));
    assert_eq!(a, ScreenAction::Connect);
    let (s, a) = next_screen(State::ReplayFolder(true, None), ScreenEvent::FolderReady);
    assert!(matches!(s, State::ListView));
    assert_eq!(a, ScreenAction::WatchFolder);
    let (s, a) = next_screen(State::ListView, ScreenEvent::UploadRequested { replays_waiting: true });
    assert!(matches!(s, State::Uploading));
    assert_eq!(a, ScreenAction::StartUpload);
    let (s, a) = next_screen(State::LogView, ScreenEvent::UploadRequested { replays_waiting: false });
    assert!(matches!(s, State::LogView));
    assert_eq!(a, ScreenAction::Nothing);
    let (s, _) = next_screen(State::ListView, ScreenEvent::LogsRequested);
    assert!(matches!(s, State::LogView));
    let (s, _) = next_screen(State::LogView, ScreenEvent::BackRequested);
    assert!(matches!(s, State::ListView));
    let (s, a) = next_screen(State::Uploading, ScreenEvent::UploadFinished);
    assert!(matches!(s, State::ListView));
    assert_eq!(a, ScreenAction::Nothing);
}
