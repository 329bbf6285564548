use worker_bridge::bridge::{call, Bridge, ReadEvent, ScriptedWorker};
use worker_bridge::envelope::decode_response;
use worker_bridge::request::Request;
use worker_bridge::surface::{
    add_documents_result, ask_result, init_result, remove_document_result, voice_input_result,
};

#[test]
fn ask_scenario_answer_sources_confidence() {
    let mut bridge = Bridge::new();
    bridge.mark_started();
    let reply = "{\"success\":true,\"data\":{\"answer\":\"30 days\",\"sources\":[{\"document\":\"policy.pdf\",\"page\":2,\"score\":0.91,\"snippet\":\"Refunds within 30 days\"}],\"confidence\":0.87}}";
    let mut worker = ScriptedWorker::new(vec![ReadEvent::Line(reply.to_string())]);
    let req = Request::ask("What is the refund policy?".to_string());
    let env = call(&bridge, &mut worker, &req).unwrap();
    assert_eq!(
        worker.input_log,
        vec!["{\"command\":\"ask\",\"question\":\"What is the refund policy?\"}".to_string()]
    );
    let a = ask_result(env).unwrap();
    assert_eq!(a.answer, "30 days");
    assert_eq!(a.sources.len(), 1);
    assert_eq!(a.sources[0].document, "policy.pdf");
    assert_eq!(a.sources[0].page, Some(2));
    assert_eq!(a.sources[0].score.parse::<f64>().unwrap(), 0.91);
    assert_eq!(a.sources[0].snippet, "Refunds within 30 days");
    assert_eq!(a.confidence.parse::<f64>().unwrap(), 0.87);
}

#[test]
fn remove_document_scenario_failure_carries_worker_message() {
    let mut bridge = Bridge::new();
    bridge.mark_started();
    let mut worker = ScriptedWorker::new(vec![ReadEvent::Line(
        "{\"success\":false,\"error\":\"not found\"}".to_string(),
    )]);
    let req = Request::remove_document("policy.pdf".to_string());
    let env = call(&bridge, &mut worker, &req).unwrap();
    assert_eq!(
        worker.input_log,
        vec!["{\"command\":\"remove_document\",\"name\":\"policy.pdf\"}".to_string()]
    );
    let r = remove_document_result(env);
    assert_eq!(r.unwrap_err(), "not found");
}

#[test]
fn ask_with_empty_data_yields_the_defaults() {
    let env = decode_response("{\"success\":true,\"data\":{}}").unwrap();
    let a = ask_result(env).unwrap();
    assert_eq!(a.answer, "No answer");
    assert!(a.sources.is_empty());
    assert_eq!(a.confidence.parse::<f64>().unwrap(), 0.0);
}

#[test]
fn ask_with_no_data_at_all_yields_the_defaults() {
    let env = decode_response("{\"success\":true}").unwrap();
    let a = ask_result(env).unwrap();
    assert_eq!(a.answer, "No answer");
    assert!(a.sources.is_empty());
    assert_eq!(a.confidence.parse::<f64>().unwrap(), 0.0);
}

#[test]
fn successful_envelope_never_reads_its_error_text() {
    let env =
        decode_response("{\"success\":true,\"error\":\"ignored\",\"data\":{\"answer\":\"yes\"}}")
            .unwrap();
    let a = ask_result(env).unwrap();
    assert_eq!(a.answer, "yes");
}

#[test]
fn failed_envelope_never_reads_its_data() {
    let env =
        decode_response("{\"success\":false,\"data\":{\"answer\":\"ignored\"},\"error\":\"bad\"}")
            .unwrap();
    let r = ask_result(env);
    assert_eq!(r.unwrap_err(), "bad");
}

#[test]
fn init_reports_ready_and_documents() {
    let reply = "{\"success\":true,\"data\":{\"documents\":[{\"name\":\"a.pdf\",\"path\":\"/tmp/a.pdf\",\"chunks\":12,\"status\":\"indexed\"},{\"name\":\"b.pdf\",\"path\":\"/tmp/b.pdf\",\"chunks\":3,\"status\":\"pending\"}]}}";
    let env = decode_response(reply).unwrap();
    let o = init_result(env).unwrap();
    assert!(o.ready);
    assert_eq!(o.documents.len(), 2);
    assert_eq!(o.documents[0].name, "a.pdf");
    assert_eq!(o.documents[0].path, "/tmp/a.pdf");
    assert_eq!(o.documents[0].chunks, 12);
    assert_eq!(o.documents[0].status, "indexed");
    assert_eq!(o.documents[1].name, "b.pdf");
}

#[test]
fn init_without_documents_defaults_to_the_empty_list() {
    let env = decode_response("{\"success\":true,\"data\":{}}").unwrap();
    let o = init_result(env).unwrap();
    assert!(o.ready);
    assert!(o.documents.is_empty());
}

#[test]
fn init_failure_uses_worker_text_or_default() {
    let env = decode_response("{\"success\":false,\"error\":\"boom\"}").unwrap();
    assert_eq!(init_result(env).unwrap_err(), "boom");
    let env = decode_response("{\"success\":false}").unwrap();
    assert_eq!(init_result(env).unwrap_err(), "Init failed");
}

#[test]
fn add_documents_defaults_and_messages() {
    let env = decode_response("{\"success\":true,\"data\":{\"documents\":[]}}").unwrap();
    assert!(add_documents_result(env).unwrap().is_empty());
    let env = decode_response("{\"success\":false}").unwrap();
    assert_eq!(add_documents_result(env).unwrap_err(), "Failed to add documents");
}

#[test]
fn malformed_document_entry_defaults_the_whole_list() {
    let reply = "{\"success\":true,\"data\":{\"documents\":[{\"name\":\"a\",\"path\":\"p\",\"chunks\":\"three\",\"status\":\"s\"}]}}";
    let env = decode_response(reply).unwrap();
    let o = init_result(env).unwrap();
    assert!(o.documents.is_empty());
}

#[test]
fn source_without_page_is_kept_with_no_page() {
    let reply = "{\"success\":true,\"data\":{\"answer\":\"x\",\"sources\":[{\"document\":\"d\",\"score\":0.5,\"snippet\":\"s\"},{\"document\":\"e\",\"page\":null,\"score\":1,\"snippet\":\"t\"}],\"confidence\":1.0}}";
    let env = decode_response(reply).unwrap();
    let a = ask_result(env).unwrap();
    assert_eq!(a.sources.len(), 2);
    assert_eq!(a.sources[0].page, None);
    assert_eq!(a.sources[1].page, None);
}

#[test]
fn voice_input_transcription_and_defaults() {
    let env =
        decode_response("{\"success\":true,\"data\":{\"transcription\":\"hello there\"}}").unwrap();
    assert_eq!(voice_input_result(env).unwrap(), "hello there");
    let env = decode_response("{\"success\":true,\"data\":{}}").unwrap();
    assert_eq!(voice_input_result(env).unwrap(), "");
    let env = decode_response("{\"success\":false}").unwrap();
    assert_eq!(voice_input_result(env).unwrap_err(), "Voice input failed");
}

#[test]
fn remove_document_succeeds_exactly_when_the_worker_says_so() {
    let env = decode_response("{\"success\":true}").unwrap();
    assert!(remove_document_result(env).is_ok());
    let env = decode_response("{\"success\":false}").unwrap();
    assert_eq!(remove_document_result(env).unwrap_err(), "Failed to remove");
}

#[test]
fn worker_reply_with_python_style_spacing_is_shaped_correctly() {
    let reply = "{\"success\": true, \"data\": {\"answer\": \"fine\", \"sources\": [], \"confidence\": 0.5}}\n";
    let env = decode_response(reply).unwrap();
    let a = ask_result(env).unwrap();
    assert_eq!(a.answer, "fine");
    assert!(a.sources.is_empty());
    assert_eq!(a.confidence.parse::<f64>().unwrap(), 0.5);
}
