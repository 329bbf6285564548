use worker_bridge::codec::{decode_request, encode_request};
use worker_bridge::request::{Command, Request};

#[test]
fn encode_ask_is_canonical() {
    let r = Request::ask("What is the refund policy?".to_string());
    let line = encode_request(&r);
    assert_eq!(line, "{\"command\":\"ask\",\"question\":\"What is the refund policy?\"}");
}

#[test]
fn encode_init_is_canonical() {
    let r = Request::init();
    assert_eq!(encode_request(&r), "{\"command\":\"init\"}");
}

#[test]
fn encode_voice_input_is_canonical() {
    let r = Request::voice_input();
    assert_eq!(encode_request(&r), "{\"command\":\"voice_input\"}");
}

#[test]
fn encode_remove_document_is_canonical() {
    let r = Request::remove_document("policy.pdf".to_string());
    assert_eq!(
        encode_request(&r),
        "{\"command\":\"remove_document\",\"name\":\"policy.pdf\"}"
    );
}

#[test]
fn encode_add_documents_is_canonical() {
    let r = Request::add_documents(vec!["a.pdf".to_string(), "b.pdf".to_string()]);
    assert_eq!(
        encode_request(&r),
        "{\"command\":\"add_documents\",\"paths\":[\"a.pdf\",\"b.pdf\"]}"
    );
}

#[test]
fn encode_add_documents_empty_list() {
    let r = Request::add_documents(Vec::new());
    assert_eq!(encode_request(&r), "{\"command\":\"add_documents\",\"paths\":[]}");
}

#[test]
fn encode_escapes_specials() {
    let r = Request::ask("say \"hi\" \\ twice".to_string());
    assert_eq!(
        encode_request(&r),
        "{\"command\":\"ask\",\"question\":\"say \\\"hi\\\" \\\\ twice\"}"
    );
}

#[test]
fn encoded_line_never_holds_a_newline() {
    let r = Request::ask("first\nsecond\tthird\r".to_string());
    let line = encode_request(&r);
    assert!(!line.contains('\n'));
    assert_eq!(
        line,
        "{\"command\":\"ask\",\"question\":\"first\\nsecond\\tthird\\r\"}"
    );
}

#[test]
fn control_characters_get_unicode_escapes() {
    let r = Request::ask("a\u{1}b".to_string());
    assert_eq!(encode_request(&r), "{\"command\":\"ask\",\"question\":\"a\\u0001b\"}");
}

#[test]
fn round_trip_ask() {
    let r = Request::ask("What is the refund policy?".to_string());
    let line = encode_request(&r);
    let back = decode_request(&line).unwrap();
    assert!(matches!(back.command, Command::Ask));
    assert_eq!(back.question.as_deref(), Some("What is the refund policy?"));
    assert!(back.paths.is_none());
    assert!(back.name.is_none());
}

#[test]
fn round_trip_ask_with_escapes() {
    let r = Request::ask("line one\nline \"two\" \\ done\u{7}".to_string());
    let back = decode_request(&encode_request(&r)).unwrap();
    assert_eq!(back.question.as_deref(), Some("line one\nline \"two\" \\ done\u{7}"));
}

#[test]
fn round_trip_add_documents() {
    let paths = vec![
        "/tmp/a.pdf".to_string(),
        "with \"quote\".pdf".to_string(),
        "with\\backslash.pdf".to_string(),
    ];
    let r = Request::add_documents(paths.clone());
    let back = decode_request(&encode_request(&r)).unwrap();
    assert!(matches!(back.command, Command::AddDocuments));
    assert_eq!(back.paths, Some(paths));
}

#[test]
fn round_trip_add_documents_empty() {
    let r = Request::add_documents(Vec::new());
    let back = decode_request(&encode_request(&r)).unwrap();
    assert_eq!(back.paths, Some(Vec::new()));
}

#[test]
fn round_trip_remove_document() {
    let r = Request::remove_document("policy.pdf".to_string());
    let back = decode_request(&encode_request(&r)).unwrap();
    assert!(matches!(back.command, Command::RemoveDocument));
    assert_eq!(back.name.as_deref(), Some("policy.pdf"));
}

#[test]
fn round_trip_init_and_voice() {
    let back = decode_request(&encode_request(&Request::init())).unwrap();
    assert!(matches!(back.command, Command::Init));
    assert!(back.question.is_none() && back.paths.is_none() && back.name.is_none());
    let back = decode_request(&encode_request(&Request::voice_input())).unwrap();
    assert!(matches!(back.command, Command::VoiceInput));
}

#[test]
fn decode_rejects_noncanonical_text() {
    assert!(decode_request("").is_err());
    assert!(decode_request("{}").is_err());
    assert!(decode_request("{\"command\":\"dance\"}").is_err());
    assert!(decode_request("{\"command\":\"ask\"}").is_err());
    assert!(decode_request("{\"command\":\"ask\",\"question\":\"x\"").is_err());
    assert!(decode_request("{\"command\":\"init\"} ").is_err());
}
