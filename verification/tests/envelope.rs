use tessivum::document::parse_json;
use tessivum::engine::InMemoryGuestEngine;
use tessivum::envelope::host_reply;
use tessivum::error::PluginError;
use tessivum::guest::{read_reply, RequestEnvelope, ResponseEnvelope};
use tessivum::json::JsonValue;
use tessivum::manifest::GuestExport;

fn json(text: &str) -> JsonValue {
    parse_json(text).expect("test value is JSON")
}

fn request() -> RequestEnvelope {
    RequestEnvelope::new("wasm:1:0:4".to_owned(), json(r#"{ "trace": 1 }"#), json("[2]"))
}

#[test]
fn request_documents_have_their_three_fields() {
    let expected = r#"{ "requestId": "wasm:1:0:4", "context": { "trace": 1 }, "payload": [2] }"#;
    assert_eq!(request().document(), json(expected));
    let received = InMemoryGuestEngine::new()
        .receive(GuestExport::Call, expected.as_bytes())
        .expect("the request is well formed");
    assert_eq!(received, request());
}

#[test]
fn reply_documents_hold_a_result_or_an_error() {
    let success = ResponseEnvelope::success(&request(), json("null"));
    assert_eq!(
        success.document(),
        json(r#"{ "requestId": "wasm:1:0:4", "result": null }"#)
    );
    assert_eq!(
        read_reply(GuestExport::Call, "wasm:1:0:4", &success.document()),
        Ok(JsonValue::Null)
    );
    let refused = PluginError::new("METHOD_REJECTED", "method is disabled", "call")
        .with_details(json("[1]"));
    let failure = ResponseEnvelope::failure(&request(), refused);
    assert_eq!(
        failure.document(),
        json(
            r#"{ "requestId": "wasm:1:0:4", "error": {
                "code": "METHOD_REJECTED",
                "message": "method is disabled",
                "phase": "call",
                "details": [1]
            } }"#
        )
    );
    let error = read_reply(GuestExport::Call, "wasm:1:0:4", &failure.document())
        .expect_err("the guest refused");
    assert_eq!(error.code, "GUEST_REJECTED");
    let error = read_reply(GuestExport::Event, "wasm:1:0:4", &failure.document())
        .expect_err("the guest names another phase");
    assert_eq!(error.code, "PROTOCOL_INVALID");
}

#[test]
fn host_replies_hold_a_result_or_an_error() {
    assert_eq!(host_reply(&Ok(json("3"))), json(r#"{ "result": 3 }"#));
    let error = PluginError::new("PERMISSION_DENIED", "not granted", "call");
    assert_eq!(
        host_reply(&Err(error)),
        json(
            r#"{ "error": {
                "code": "PERMISSION_DENIED",
                "message": "not granted",
                "phase": "call"
            } }"#
        )
    );
}
