use worker_bridge::bridge::{call, call_each, Bridge, BridgeError, ReadEvent, ScriptedWorker};
use worker_bridge::request::Request;

#[test]
fn call_before_start_fails_and_writes_nothing() {
    let bridge = Bridge::new();
    let mut worker = ScriptedWorker::new(vec![ReadEvent::Line(
        "{\"success\":true}".to_string(),
    )]);
    let r = call(&bridge, &mut worker, &Request::init());
    assert!(matches!(r, Err(BridgeError::NotStarted)));
    assert!(worker.input_log.is_empty());
    assert_eq!(worker.cursor, 0);
    assert_eq!(
        BridgeError::NotStarted.message(),
        "Backend not started".to_string()
    );
}

#[test]
fn closed_stream_fails_with_transport_closed() {
    let mut bridge = Bridge::new();
    bridge.mark_started();
    let mut worker = ScriptedWorker::new(vec![ReadEvent::Closed]);
    let r = call(&bridge, &mut worker, &Request::voice_input());
    assert!(matches!(r, Err(BridgeError::TransportClosed)));
    assert_eq!(worker.input_log.len(), 1);
}

#[test]
fn exhausted_script_reads_as_closed_stream() {
    let mut bridge = Bridge::new();
    bridge.mark_started();
    let mut worker = ScriptedWorker::new(Vec::new());
    let r = call(&bridge, &mut worker, &Request::init());
    assert!(matches!(r, Err(BridgeError::TransportClosed)));
}

#[test]
fn read_fault_surfaces_as_transport_read() {
    let mut bridge = Bridge::new();
    bridge.mark_started();
    let mut worker = ScriptedWorker::new(vec![ReadEvent::Failed("broken pipe".to_string())]);
    let r = call(&bridge, &mut worker, &Request::init());
    match r {
        Err(BridgeError::TransportRead(m)) => assert_eq!(m, "broken pipe"),
        _ => panic!("expected a transport read failure"),
    }
}

#[test]
fn garbage_line_surfaces_as_malformed_frame_with_the_line() {
    let mut bridge = Bridge::new();
    bridge.mark_started();
    let mut worker = ScriptedWorker::new(vec![ReadEvent::Line("not json".to_string())]);
    let r = call(&bridge, &mut worker, &Request::init());
    match r {
        Err(BridgeError::MalformedFrame(line, _detail)) => assert_eq!(line, "not json"),
        _ => panic!("expected a malformed frame"),
    }
}

#[test]
fn each_call_writes_one_whole_line_then_reads_one_reply() {
    let mut bridge = Bridge::new();
    bridge.mark_started();
    let mut worker = ScriptedWorker::new(vec![
        ReadEvent::Line("{\"success\":true}".to_string()),
        ReadEvent::Line("{\"success\":false,\"error\":\"no\"}".to_string()),
    ]);
    let r1 = call(&bridge, &mut worker, &Request::ask("one".to_string()));
    assert!(r1.unwrap().success);
    assert_eq!(worker.input_log.len(), 1);
    assert_eq!(worker.cursor, 1);
    let r2 = call(&bridge, &mut worker, &Request::ask("two".to_string()));
    assert!(!r2.unwrap().success);
    assert_eq!(worker.cursor, 2);
    assert_eq!(
        worker.input_log,
        vec![
            "{\"command\":\"ask\",\"question\":\"one\"}".to_string(),
            "{\"command\":\"ask\",\"question\":\"two\"}".to_string(),
        ]
    );
    assert!(worker.input_log.iter().all(|l| !l.contains('\n')));
}

#[test]
fn stopped_worker_is_not_started_again() {
    let mut bridge = Bridge::new();
    bridge.mark_started();
    bridge.mark_stopped();
    let mut worker = ScriptedWorker::new(Vec::new());
    let r = call(&bridge, &mut worker, &Request::init());
    assert!(matches!(r, Err(BridgeError::NotStarted)));
    assert!(worker.input_log.is_empty());
}

#[test]
fn error_messages_name_their_failure() {
    assert_eq!(
        BridgeError::SpawnFailure("no such file".to_string()).message(),
        "failed to start worker: no such file"
    );
    assert_eq!(
        BridgeError::TransportWrite("pipe closed".to_string()).message(),
        "failed to write request: pipe closed"
    );
    assert_eq!(
        BridgeError::TransportRead("eof".to_string()).message(),
        "failed to read response: eof"
    );
    assert_eq!(
        BridgeError::TransportClosed.message(),
        "worker closed its output before replying"
    );
    let m = BridgeError::MalformedFrame("raw".to_string(), "why".to_string()).message();
    assert_eq!(m, "Parse error: why - Response: raw");
}

#[test]
fn many_callers_one_at_a_time_leave_an_ordered_transcript() {
    let mut bridge = Bridge::new();
    bridge.mark_started();
    let mut worker = ScriptedWorker::new(vec![
        ReadEvent::Line("{\"success\":true}".to_string()),
        ReadEvent::Line("{\"success\":true}".to_string()),
        ReadEvent::Line("{\"success\":true}".to_string()),
    ]);
    let reqs = vec![
        Request::init(),
        Request::ask("q".to_string()),
        Request::remove_document("d".to_string()),
    ];
    let rs = call_each(&bridge, &mut worker, &reqs);
    assert_eq!(rs.len(), 3);
    assert!(rs.into_iter().all(|r| r.is_ok()));
    assert_eq!(
        worker.input_log,
        vec![
            "{\"command\":\"init\"}".to_string(),
            "{\"command\":\"ask\",\"question\":\"q\"}".to_string(),
            "{\"command\":\"remove_document\",\"name\":\"d\"}".to_string(),
        ]
    );
    assert_eq!(worker.cursor, 3);
}
