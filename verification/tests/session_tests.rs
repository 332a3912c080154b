use resumelog::jsonio::handle_line;
use resumelog::proto::{
    boot_path_query_request, load_path_query_request, observe_path_request,
    observe_time_pos_request, EndReason, InboundMsg,
};
use resumelog::session::Session;
use resumelog::store::ResumeDb;

fn bytes(s: &str) -> Vec<u8> {
    s.as_bytes().to_vec()
}

fn playing_session(path: &str, pos_ms: u64) -> Session {
    let mut s = Session::new(0);
    s.current_path = Some(bytes(path));
    s.current_pos_ms = pos_ms;
    s
}

#[test]
fn end_file_with_zero_reason_removes_the_entry() {
    let mut s = playing_session("/m/a.mp3", 83250);
    let mut db = ResumeDb::new();
    db.insert(bytes("/m/a.mp3"), 10000);
    let eff = s.handle_msg(&mut db, InboundMsg::EndFile { reason: EndReason::Num(0) }, 0);
    assert_eq!(db.get(&bytes("/m/a.mp3")), None);
    let flush = eff.flush.unwrap();
    assert_eq!(flush.path, bytes("/m/a.mp3"));
    assert_eq!(flush.pos_ms, 83250);
    assert!(s.current_path.is_none());
    assert_eq!(s.current_pos_ms, 0);
}

#[test]
fn end_file_with_stop_reason_stores_the_position() {
    let mut s = playing_session("/m/a.mp3", 83250);
    let mut db = ResumeDb::new();
    let eff = s.handle_msg(
        &mut db,
        InboundMsg::EndFile { reason: EndReason::Text(bytes("stop")) },
        0,
    );
    assert_eq!(db.get(&bytes("/m/a.mp3")), Some(83250));
    assert!(eff.flush.is_some());
    assert!(s.current_path.is_none());
    assert_eq!(s.current_pos_ms, 0);
}

#[test]
fn end_file_reason_eof_is_case_insensitive() {
    let mut s = playing_session("/m/a.mp3", 1000);
    let mut db = ResumeDb::new();
    db.insert(bytes("/m/a.mp3"), 500);
    s.handle_msg(&mut db, InboundMsg::EndFile { reason: EndReason::Text(bytes("EOF")) }, 0);
    assert_eq!(db.get(&bytes("/m/a.mp3")), None);
}

#[test]
fn end_file_without_a_path_only_resets_position() {
    let mut s = Session::new(0);
    s.current_pos_ms = 4000;
    let mut db = ResumeDb::new();
    db.insert(bytes("/m/a.mp3"), 500);
    let eff = s.handle_msg(&mut db, InboundMsg::EndFile { reason: EndReason::Num(4) }, 0);
    assert!(eff.flush.is_none());
    assert_eq!(db.get(&bytes("/m/a.mp3")), Some(500));
    assert_eq!(s.current_pos_ms, 0);
}

#[test]
fn time_pos_without_a_path_never_writes() {
    let mut s = Session::new(0);
    let mut db = ResumeDb::new();
    let line = bytes("{\"event\":\"property-change\",\"name\":\"time-pos\",\"data\":12.0}");
    let eff = handle_line(&mut s, &mut db, &line, 60000);
    assert!(eff.flush.is_none());
    assert_eq!(db.len(), 0);
    assert_eq!(s.current_pos_ms, 12000);
}

#[test]
fn time_pos_writes_are_throttled() {
    let mut s = playing_session("/m/a.mp3", 0);
    s.last_flush_ms = 10000;
    let mut db = ResumeDb::new();
    let line = bytes("{\"event\":\"property-change\",\"name\":\"time-pos\",\"data\":20.0}");

    // the interval has passed: this event flushes
    let e1 = handle_line(&mut s, &mut db, &line, 16000);
    assert!(e1.flush.is_some());
    assert_eq!(s.last_flush_ms, 16000);

    // one second later: no second write
    let e2 = handle_line(&mut s, &mut db, &line, 17000);
    assert!(e2.flush.is_none());
    assert_eq!(s.last_flush_ms, 16000);

    // six seconds after the first write: a second write
    let e3 = handle_line(&mut s, &mut db, &line, 22000);
    assert!(e3.flush.is_some());
    assert_eq!(s.last_flush_ms, 22000);
}

#[test]
fn path_change_updates_the_path_without_writing() {
    let mut s = Session::new(0);
    let mut db = ResumeDb::new();
    let line = bytes("{\"event\":\"property-change\",\"name\":\"path\",\"data\":\"/m/b.mp3\"}");
    let eff = handle_line(&mut s, &mut db, &line, 0);
    assert!(eff.flush.is_none());
    assert_eq!(s.current_path, Some(bytes("/m/b.mp3")));
    assert_eq!(db.len(), 0);
}

#[test]
fn file_loaded_asks_for_the_path_again() {
    let mut s = Session::new(0);
    let mut db = ResumeDb::new();
    let line = bytes("{\"event\":\"file-loaded\"}");
    let eff = handle_line(&mut s, &mut db, &line, 0);
    assert!(eff.query_path);
    assert!(eff.flush.is_none());
    assert!(s.load_query_pending);
    // ... and the answer to that query is taken up
    let reply = bytes("{\"request_id\":1,\"data\":\"/m/loaded.mp3\"}");
    handle_line(&mut s, &mut db, &reply, 0);
    assert_eq!(s.current_path, Some(bytes("/m/loaded.mp3")));
    assert!(!s.load_query_pending);
}

#[test]
fn garbage_and_unknown_lines_are_ignored() {
    let mut s = Session::new(0);
    let mut db = ResumeDb::new();
    for line in [
        "not json at all",
        "{\"event\":\"seek\"}",
        "{\"request_id\":7,\"data\":\"/m/x.mp3\"}",
        "{\"event\":\"property-change\",\"name\":\"volume\",\"data\":50}",
        "{\"event\":\"property-change\",\"name\":\"time-pos\",\"data\":\"oops\"}",
    ] {
        let eff = handle_line(&mut s, &mut db, &bytes(line), 60000);
        assert!(eff.flush.is_none());
        assert!(!eff.query_path);
    }
    assert!(s.current_path.is_none());
    assert_eq!(db.len(), 0);
}

#[test]
fn startup_scenario_tracks_and_flushes_on_end() {
    // the three startup requests, the path query tagged 42
    assert_eq!(
        observe_time_pos_request(),
        "{\"command\":[\"observe_property\",1,\"time-pos\"]}"
    );
    assert_eq!(observe_path_request(), "{\"command\":[\"observe_property\",2,\"path\"]}");
    assert_eq!(
        boot_path_query_request(),
        "{\"request_id\":42,\"command\":[\"get_property\",\"path\"]}"
    );
    assert_eq!(
        load_path_query_request(),
        "{\"request_id\":1,\"command\":[\"get_property\",\"path\"]}"
    );
    assert_eq!(
        resumelog::proto::startup_requests(),
        vec![observe_time_pos_request(), observe_path_request(), boot_path_query_request()]
    );

    let mut s = Session::new(0);
    let mut db = ResumeDb::new();

    // the reply to the boot query names the current file; nothing is written
    let reply = bytes("{\"request_id\":42,\"data\":\"/m/a.mp3\"}");
    let e1 = handle_line(&mut s, &mut db, &reply, 0);
    assert!(e1.flush.is_none());
    assert_eq!(s.current_path, Some(bytes("/m/a.mp3")));
    assert_eq!(db.len(), 0);

    // a position notification moves the position
    let tick = bytes("{\"event\":\"property-change\",\"name\":\"time-pos\",\"data\":12.0}");
    let e2 = handle_line(&mut s, &mut db, &tick, 1000);
    assert!(e2.flush.is_none());
    assert_eq!(s.current_pos_ms, 12000);

    // an interrupted end of file stores the position and resets the state
    let end = bytes("{\"event\":\"end-file\",\"reason\":4}");
    let e3 = handle_line(&mut s, &mut db, &end, 1000);
    let flush = e3.flush.unwrap();
    assert_eq!(flush.path, bytes("/m/a.mp3"));
    assert_eq!(flush.pos_ms, 12000);
    assert_eq!(db.serialize(), bytes("/m/a.mp3\t12.000\n"));
    assert_eq!(
        resumelog::store::format_record(&flush.path, flush.pos_ms),
        bytes("/m/a.mp3\t12.000\n")
    );
    assert!(s.current_path.is_none());
    assert_eq!(s.current_pos_ms, 0);
}

#[test]
fn a_reply_without_string_data_leaves_the_query_outstanding() {
    let mut s = Session::new(0);
    let mut db = ResumeDb::new();
    let odd = bytes("{\"request_id\":42,\"data\":5}");
    handle_line(&mut s, &mut db, &odd, 0);
    assert!(s.current_path.is_none());
    assert!(s.boot_query_pending);
    let reply = bytes("{\"request_id\":42,\"data\":\"/m/a.mp3\"}");
    handle_line(&mut s, &mut db, &reply, 0);
    assert_eq!(s.current_path, Some(bytes("/m/a.mp3")));
    assert!(!s.boot_query_pending);
}

#[test]
fn a_boot_reply_is_consumed_only_once() {
    let mut s = Session::new(0);
    let mut db = ResumeDb::new();
    let reply = bytes("{\"request_id\":42,\"data\":\"/m/a.mp3\"}");
    handle_line(&mut s, &mut db, &reply, 0);
    assert_eq!(s.current_path, Some(bytes("/m/a.mp3")));
    let stray = bytes("{\"request_id\":42,\"data\":\"/m/other.mp3\"}");
    handle_line(&mut s, &mut db, &stray, 0);
    assert_eq!(s.current_path, Some(bytes("/m/a.mp3")));
}
