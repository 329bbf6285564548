use worker_bridge::envelope::decode_response;

#[test]
fn decode_success_with_data() {
    let env = decode_response("{\"success\":true,\"data\":{\"answer\":\"ok\"}}").unwrap();
    assert!(env.success);
    assert_eq!(env.data.as_deref(), Some("{\"answer\":\"ok\"}"));
    assert!(env.error.is_none());
}

#[test]
fn decode_failure_with_error() {
    let env = decode_response("{\"success\":false,\"error\":\"not found\"}").unwrap();
    assert!(!env.success);
    assert!(env.data.is_none());
    assert_eq!(env.error.as_deref(), Some("not found"));
}

#[test]
fn decode_tolerates_member_order() {
    let env = decode_response("{\"error\":\"late\",\"success\":false}").unwrap();
    assert!(!env.success);
    assert_eq!(env.error.as_deref(), Some("late"));
}

#[test]
fn decode_tolerates_whitespace_and_trailing_newline() {
    let env = decode_response("{ \"success\" : true , \"data\" : {\"k\": 1} }\n").unwrap();
    assert!(env.success);
    assert_eq!(env.data.as_deref(), Some("{\"k\": 1}"));
}

#[test]
fn decode_tolerates_unknown_members() {
    let env =
        decode_response("{\"success\":true,\"elapsed\":0.25,\"notes\":[1,[2,{\"deep\":\"}\"}]]}")
            .unwrap();
    assert!(env.success);
    assert!(env.data.is_none());
}

#[test]
fn decode_treats_null_data_and_error_as_absent() {
    let env = decode_response("{\"success\":true,\"data\":null,\"error\":null}").unwrap();
    assert!(env.success);
    assert!(env.data.is_none());
    assert!(env.error.is_none());
}

#[test]
fn decode_requires_a_boolean_success_member() {
    assert!(decode_response("{}").is_err());
    assert!(decode_response("{\"success\":\"yes\"}").is_err());
    assert!(decode_response("{\"success\":1}").is_err());
    assert!(decode_response("{\"data\":{}}").is_err());
}

#[test]
fn decode_rejects_non_envelope_text() {
    assert!(decode_response("").is_err());
    assert!(decode_response("hello").is_err());
    assert!(decode_response("[1,2]").is_err());
    assert!(decode_response("{\"success\":true").is_err());
    assert!(decode_response("{\"success\":true} trailing").is_err());
}

#[test]
fn decode_unescapes_error_text() {
    let env = decode_response("{\"success\":false,\"error\":\"a \\\"b\\\"\\nc \\u0041\"}").unwrap();
    assert_eq!(env.error.as_deref(), Some("a \"b\"\nc A"));
}

#[test]
fn decode_combines_surrogate_pair_escapes() {
    let env =
        decode_response("{\"success\":false,\"error\":\"\\uD83D\\uDE00 ok\"}").unwrap();
    assert_eq!(env.error.as_deref(), Some("\u{1F600} ok"));
}

#[test]
fn decode_rejects_lone_surrogate_escapes() {
    assert!(decode_response("{\"success\":false,\"error\":\"\\uD83D\"}").is_err());
    assert!(decode_response("{\"success\":false,\"error\":\"\\uDE00\"}").is_err());
}

#[test]
fn decode_rejects_malformed_bare_tokens() {
    assert!(decode_response("{\"success\":true,\"data\":{\"x\":tru7e}}").is_err());
    assert!(decode_response("{\"success\":true,\"pad\":01}").is_err());
    assert!(decode_response("{\"success\":true,\"pad\":1.}").is_err());
    assert!(decode_response("{\"success\":true,\"pad\":--2}").is_err());
    assert!(decode_response("{\"success\":true,\"pad\":1e}").is_err());
}

#[test]
fn decode_accepts_well_formed_number_tokens() {
    let env = decode_response(
        "{\"success\":true,\"a\":0,\"b\":-12.5,\"c\":1.5e-3,\"d\":2E+10,\"e\":null}",
    )
    .unwrap();
    assert!(env.success);
}

#[test]
fn decode_diagnostics_name_the_failing_part() {
    assert_eq!(decode_response("hello").unwrap_err(), "no object opens the line");
    assert_eq!(
        decode_response("{\"success\":true").unwrap_err(),
        "the object's members do not scan"
    );
    assert_eq!(
        decode_response("{\"success\":true} x").unwrap_err(),
        "text follows the object"
    );
    assert_eq!(
        decode_response("{\"success\":1}").unwrap_err(),
        "a known member has the wrong shape"
    );
    assert_eq!(decode_response("{}").unwrap_err(), "no boolean success member");
}
