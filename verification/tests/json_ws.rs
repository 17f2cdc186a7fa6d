use overseerd_tooling::route::{resolve_message_reply, MessageMode};
use overseerd_tooling::json_ws::{
    call_frame, reply_frame_text, ClientFrame,
    classify_reply, render_reply, reply_frame, ClientReply, FrameBody, JsonWsCodec, JsonWsStatus,
    WsDispatchError, WsReply,
};
use serde_json::Value;

#[test]
fn ok_result_renders_an_ok_frame_echoing_the_id() {
    let reply = render_reply(
        "echo",
        Some(7),
        Ok(WsReply(Some(String::from(r#"{"echo":"hi"}"#)))),
    )
    .expect("a reply frame");
    let value: Value = serde_json::from_str(&reply).expect("valid json reply");

    assert_eq!(value["dest"], "echo");
    assert_eq!(value["id"], 7);
    assert_eq!(value["ok"]["echo"], "hi");
    assert!(value.get("error").is_none());
}

#[test]
fn uncorrelated_send_success_and_error_emit_no_reply() {
    assert!(render_reply("send", None, Ok(WsReply(None))).is_none());
    assert!(render_reply(
        "send",
        None,
        Err(WsDispatchError::Application("visible".to_owned())),
    )
    .is_none());
}

#[test]
fn application_error_text_is_visible_when_correlated() {
    let reply = render_reply(
        "request",
        Some(9),
        Err(WsDispatchError::Application("safe message".to_owned())),
    )
    .expect("correlated error reply");
    let value: Value = serde_json::from_str(&reply).expect("valid json reply");

    assert_eq!(value["error"], "safe message");
}

#[test]
fn error_result_renders_an_error_frame() {
    let reply = render_reply(
        "nope",
        Some(1),
        Err(WsDispatchError::NotFound("nope".to_string())),
    )
    .expect("a reply frame");
    let value: Value = serde_json::from_str(&reply).expect("valid json reply");

    assert_eq!(value["dest"], "nope");
    assert_eq!(value["id"], 1);
    assert_eq!(value["error"], "no handler for destination");
    assert!(value.get("ok").is_none());
}

#[test]
fn internal_dispatch_details_are_redacted_from_error_frames() {
    let reply = render_reply(
        "secure",
        Some(2),
        Err(WsDispatchError::Inject(
            "SecretProvider<DatabasePassword> failed".to_owned(),
        )),
    )
    .expect("a reply frame");
    let value: Value = serde_json::from_str(&reply).expect("valid json reply");

    assert_eq!(value["error"], "internal error");
    assert!(!reply.contains("SecretProvider"));
    assert!(!reply.contains("DatabasePassword"));
}

#[test]
fn reply_frames_have_exact_compact_text() {
    assert_eq!(
        render_reply("echo", Some(7), Ok(WsReply(Some(String::from("[1,2]"))))).unwrap(),
        r#"{"dest":"echo","id":7,"ok":[1,2]}"#
    );
    assert_eq!(
        render_reply("a\"b", None, Ok(WsReply(Some(String::from("null"))))).unwrap(),
        r#"{"dest":"a\"b","ok":null}"#
    );
    assert_eq!(
        render_reply("x", Some(0), Err(WsDispatchError::Encode(String::from("boom")))).unwrap(),
        r#"{"dest":"x","id":0,"error":"internal error"}"#
    );
}

#[test]
fn reply_frame_assembles_members_in_order() {
    assert_eq!(
        reply_frame("\"d\"", Some(12), FrameBody::Value(String::from("{}"))),
        r#"{"dest":"d","id":12,"ok":{}}"#
    );
    assert_eq!(
        reply_frame("\"d\"", None, FrameBody::Failure(String::from("\"e\""))),
        r#"{"dest":"d","error":"e"}"#
    );
}

#[test]
fn public_messages_hide_everything_but_application_text() {
    assert_eq!(
        WsDispatchError::NotFound(String::from("chat.x")).public_message(),
        "no handler for destination"
    );
    assert_eq!(
        WsDispatchError::Encode(String::from("secret")).public_message(),
        "internal error"
    );
    assert_eq!(
        WsDispatchError::Application(String::from("try again")).public_message(),
        "try again"
    );
}

#[test]
fn client_replies_prefer_errors_then_values() {
    match classify_reply(Some(String::from("1")), Some(String::from("bad"))) {
        ClientReply::Remote { status, message } => {
            assert_eq!(status, JsonWsStatus::Error);
            assert_eq!(message, "bad");
        }
        _ => panic!("an error member wins"),
    }
    match classify_reply(Some(String::from("{\"a\":1}")), None) {
        ClientReply::Payload(p) => assert_eq!(p, "{\"a\":1}"),
        _ => panic!("an ok member is the payload"),
    }
    match classify_reply(None, None) {
        ClientReply::Decode(d) => assert_eq!(d, "ws reply contained neither ok nor error"),
        _ => panic!("a frame with neither member is undecodable"),
    }
}

#[test]
fn codec_and_status_exist() {
    let _codec = JsonWsCodec;
    assert_eq!(JsonWsStatus::Error, JsonWsStatus::Error);
}

#[test]
fn call_frames_carry_destination_correlation_and_payload() {
    let request = call_frame("users.get", Some(7), "{\"id\":1}");
    let parsed: Value = serde_json::from_str(&request).expect("request frame is JSON");

    assert_eq!(request, r#"{"dest":"users.get","id":7,"payload":{"id":1}}"#);
    assert_eq!(parsed["dest"], "users.get");
    assert_eq!(parsed["id"], 7);
    assert_eq!(parsed["payload"]["id"], 1);

    let send = call_frame("chat \"room\"", None, "null");
    let parsed: Value = serde_json::from_str(&send).expect("send frame is JSON");

    assert_eq!(parsed["dest"], "chat \"room\"");
    assert!(parsed["id"].is_null());
    assert!(parsed.as_object().expect("object").contains_key("payload"));
}

#[test]
fn a_binary_reply_is_a_decode_error() {
    match reply_frame_text(ClientFrame::Binary(vec![1, 2, 3])) {
        Err(ClientReply::Decode(message)) => assert_eq!(message, "JSON WebSocket reply was binary"),
        _ => panic!("a binary reply must be a decode error"),
    }
    match reply_frame_text(ClientFrame::Text(String::from(r#"{"ok":1}"#))) {
        Ok(text) => assert_eq!(text, r#"{"ok":1}"#),
        _ => panic!("a text reply is kept"),
    }
}

#[test]
fn destinations_are_written_as_escaped_json_strings() {
    let frame = call_frame("a\"b\\c\n\u{1}é", None, "null");
    assert_eq!(frame, "{\"dest\":\"a\\\"b\\\\c\\n\\u0001é\",\"id\":null,\"payload\":null}");
}

#[test]
fn server_request_uses_message_reply_and_application_error() {
    // A handler returning a value replies to the requester.
    assert!(resolve_message_reply(MessageMode::Infer, true));
    assert!(resolve_message_reply(MessageMode::Request, true));

    // Its application error reaches the requester with its own text.
    let reply = render_reply("request", Some(1), Err(WsDispatchError::Application(String::from("Failure"))))
        .expect("a correlated failure is answered");
    let value: Value = serde_json::from_str(&reply).expect("valid json reply");
    assert_eq!(value["error"], "Failure");
}
