use mailsync::types::{Id, RequestError, RequestErrorType, RequestLimitError, State, TypeState};
use mailsync::websocket::{
    Response, WebSocketMessage, WebSocketRequestError, WebSocketResponse, WebSocketStateChange,
};

#[test]
fn parse_push_enable() {
    let msg = br#"{"@type":"WebSocketPushEnable","dataTypes":["Email","Mailbox"],"pushState":"abc"}"#;
    match WebSocketMessage::parse(msg, 16, 1024).unwrap() {
        WebSocketMessage::PushEnable(pe) => {
            assert_eq!(pe.data_types, vec![TypeState::Email, TypeState::Mailbox]);
            assert_eq!(pe.push_state.as_deref(), Some("abc"));
        }
        other => panic!("unexpected {:?}", other),
    }
}

#[test]
fn parse_push_enable_null_data_types() {
    let msg = br#"{"@type":"WebSocketPushEnable","dataTypes":null}"#;
    match WebSocketMessage::parse(msg, 16, 1024).unwrap() {
        WebSocketMessage::PushEnable(pe) => {
            assert!(pe.data_types.is_empty());
            assert!(pe.push_state.is_none());
        }
        other => panic!("unexpected {:?}", other),
    }
}

#[test]
fn parse_enable_without_push_keys_is_malformed() {
    // Declares the enable-push type but carries neither dataTypes nor
    // pushState: rejected as malformed.
    let msg = br#"{"@type":"WebSocketPushEnable"}"#;
    let err = WebSocketMessage::parse(msg, 16, 1024).err().unwrap();
    assert_eq!(err.p_type, RequestErrorType::NotRequest);
    assert_eq!(err.status, 400);
    assert_eq!(err.detail, "Invalid WebSocket JMAP request");
}

#[test]
fn parse_oversized_rejected_before_parsing() {
    // Over the configured ceiling: a size-limit error, even though the
    // content is not valid JSON at all.
    let junk = b"this is not json and is too long";
    let err = WebSocketMessage::parse(junk, 16, 10).err().unwrap();
    assert_eq!(err.p_type, RequestErrorType::Limit);
    assert_eq!(err.limit, Some(RequestLimitError::SizeRequest));
}

#[test]
fn parse_request_with_id() {
    let msg = br#"{"@type":"Request","id":"r-1","using":["urn:ietf:params:jmap:core"],"methodCalls":[["Email/get",{},"c1"]]}"#;
    match WebSocketMessage::parse(msg, 16, 4096).unwrap() {
        WebSocketMessage::Request(rq) => {
            assert_eq!(rq.id.as_deref(), Some("r-1"));
            assert!(rq.request.has_using);
            assert!(rq.request.has_method_calls);
            assert_eq!(rq.request.method_call_count, 1);
        }
        other => panic!("unexpected {:?}", other),
    }
}

#[test]
fn parse_request_without_request_keys_is_malformed() {
    let msg = br#"{"@type":"Request"}"#;
    let err = WebSocketMessage::parse(msg, 16, 1024).err().unwrap();
    assert_eq!(err.p_type, RequestErrorType::NotRequest);
}

#[test]
fn parse_too_many_method_calls() {
    let msg = br#"{"@type":"Request","methodCalls":[["a",{},"1"],["b",{},"2"],["c",{},"3"]]}"#;
    let err = WebSocketMessage::parse(msg, 2, 4096).err().unwrap();
    assert_eq!(err.p_type, RequestErrorType::Limit);
    assert_eq!(err.limit, Some(RequestLimitError::CallsIn));
}

#[test]
fn parse_push_disable() {
    let msg = br#"{"@type":"WebSocketPushDisable"}"#;
    match WebSocketMessage::parse(msg, 16, 1024).unwrap() {
        WebSocketMessage::PushDisable => {}
        other => panic!("unexpected {:?}", other),
    }
}

#[test]
fn parse_disable_with_push_keys_is_malformed() {
    let msg = br#"{"@type":"WebSocketPushDisable","pushState":"x"}"#;
    let err = WebSocketMessage::parse(msg, 16, 1024).err().unwrap();
    assert_eq!(err.p_type, RequestErrorType::NotRequest);
}

#[test]
fn parse_string_escapes() {
    let msg = r#"{"@type":"WebSocketPushEnable","pushState":"a\nbA😀"}"#;
    match WebSocketMessage::parse(msg.as_bytes(), 16, 1024).unwrap() {
        WebSocketMessage::PushEnable(pe) => {
            assert_eq!(pe.push_state.as_deref(), Some("a\nbA\u{1F600}"));
        }
        other => panic!("unexpected {:?}", other),
    }
}

#[test]
fn parse_unknown_key_is_skipped() {
    let msg = br#"{"@type":"WebSocketPushEnable","extra":{"nested":[1,2,{"x":"]}"}]},"pushState":"s"}"#;
    match WebSocketMessage::parse(msg, 16, 1024).unwrap() {
        WebSocketMessage::PushEnable(pe) => {
            assert_eq!(pe.push_state.as_deref(), Some("s"));
        }
        other => panic!("unexpected {:?}", other),
    }
}

#[test]
fn parse_garbage_is_not_json() {
    let err = WebSocketMessage::parse(b"nonsense", 16, 1024).err().unwrap();
    assert_eq!(err.p_type, RequestErrorType::NotJson);
}

#[test]
fn error_to_json_wire_format() {
    let e = WebSocketRequestError::from_error(
        RequestError::limit(RequestLimitError::SizeRequest),
        Some(String::from("req-7")),
    );
    let s = e.to_json();
    assert_eq!(
        s,
        "{\"@type\":\"RequestError\",\"type\":\"urn:ietf:params:jmap:error:limit\",\"limit\":\"maxSizeRequest\",\"status\":400,\"detail\":\"Request size exceeds maximum allowed.\",\"requestId\":\"req-7\"}"
    );
    // It parses back as JSON with the same fields.
    let v: serde_json::Value = serde_json::from_str(&s).unwrap();
    assert_eq!(v["@type"], "RequestError");
    assert_eq!(v["limit"], "maxSizeRequest");
    assert_eq!(v["status"], 400);
}

#[test]
fn error_to_json_escapes_detail() {
    let e = WebSocketRequestError::from_error(RequestError::not_request("a \"b\"\nc\\"), None);
    let s = e.to_json();
    let v: serde_json::Value = serde_json::from_str(&s).unwrap();
    assert_eq!(v["detail"], "a \"b\"\nc\\");
    assert!(v.get("requestId").is_none());
}

#[test]
fn over_blob_quota_detail_carries_ceilings() {
    let e = RequestError::over_blob_quota(25, 50000);
    assert_eq!(e.detail, "Quota exceeded: maximum of 25 files and 50000 bytes.");
    assert_eq!(e.status, 400);
}

#[test]
fn response_to_json_wire_format() {
    let ws = WebSocketResponse::from_response(
        Response {
            method_responses: vec![String::from("[\"Email/get\",{},\"c1\"]")],
            session_state: 0x2a,
            created_ids: vec![(String::from("k1"), Id::from_parts(1, 2))],
        },
        Some(String::from("r1")),
    );
    let s = ws.to_json();
    assert_eq!(
        s,
        "{\"@type\":\"Response\",\"methodResponses\":[[\"Email/get\",{},\"c1\"]],\"sessionState\":\"2a\",\"createdIds\":{\"k1\":\"100000002\"},\"requestId\":\"r1\"}"
    );
    let v: serde_json::Value = serde_json::from_str(&s).unwrap();
    assert_eq!(v["sessionState"], "2a");
}

#[test]
fn response_to_json_skips_empty_created_ids() {
    let ws = WebSocketResponse::from_response(
        Response { method_responses: Vec::new(), session_state: 0, created_ids: Vec::new() },
        None,
    );
    let s = ws.to_json();
    assert_eq!(s, "{\"@type\":\"Response\",\"methodResponses\":[],\"sessionState\":\"0\"}");
}

#[test]
fn state_change_to_json_wire_format() {
    let mut sc = WebSocketStateChange::new(Some(String::from("ps")));
    sc.changed.push((
        Id::from_document_id(3),
        vec![(TypeState::Email, State::Exact(0x10)), (TypeState::Thread, State::Initial)],
    ));
    let s = sc.to_json();
    assert_eq!(
        s,
        "{\"@type\":\"StateChange\",\"changed\":{\"3\":{\"Email\":\"10\",\"Thread\":\"n\"}},\"pushState\":\"ps\"}"
    );
    let v: serde_json::Value = serde_json::from_str(&s).unwrap();
    assert_eq!(v["changed"]["3"]["Email"], "10");
}

#[test]
fn state_change_new_is_empty() {
    let sc = WebSocketStateChange::new(None);
    assert!(sc.changed.is_empty());
    assert!(sc.push_state.is_none());
    assert_eq!(sc.to_json(), "{\"@type\":\"StateChange\",\"changed\":{}}");
}

#[test]
fn from_error_keeps_fields() {
    let e = WebSocketRequestError::from_error(
        RequestError::internal_server_error(),
        Some(String::from("x")),
    );
    assert_eq!(e.p_type, RequestErrorType::Internal);
    assert_eq!(e.status, 500);
    assert_eq!(e.request_id.as_deref(), Some("x"));
}

#[test]
fn parse_tolerates_whitespace() {
    let msg = b" { \"@type\" : \"WebSocketPushDisable\" } ";
    match WebSocketMessage::parse(msg, 16, 1024).unwrap() {
        WebSocketMessage::PushDisable => {}
        other => panic!("unexpected {:?}", other),
    }
}

#[test]
fn parse_empty_object_is_malformed() {
    let err = WebSocketMessage::parse(b"{}", 16, 1024).err().unwrap();
    assert_eq!(err.p_type, RequestErrorType::NotRequest);
}

#[test]
fn parse_trailing_bytes_rejected() {
    // Only whitespace may follow the envelope's closing brace.
    let msg = br#"{"@type":"WebSocketPushDisable"} junk"#;
    let err = WebSocketMessage::parse(msg, 16, 1024).err().unwrap();
    assert_eq!(err.p_type, RequestErrorType::NotJson);
    let ok = br#"{"@type":"WebSocketPushDisable"}   "#;
    assert!(WebSocketMessage::parse(ok, 16, 1024).is_ok());
}
