use steward::json::{Json, Number};
use steward::protocol::{
    code, decode_line, encode_line, is_host_request, method, ClipboardEntry, Message, Notification,
    Request, Response, RpcError, JSONRPC_VERSION,
};

fn text(s: &str) -> Json {
    Json::Str(s.into())
}

fn number(n: u64) -> Json {
    Json::Number(Number::Pos(n))
}

fn object(fields: Vec<(&str, Json)>) -> Json {
    Json::Object(fields.into_iter().map(|(key, value)| (key.into(), value)).collect())
}

fn read_back(message: &Message) -> Message {
    Message::from_json(&message.to_json()).unwrap()
}

fn shown(message: &Message) -> String {
    format!("{message:?}")
}

#[test]
fn request_round_trips_through_json() {
    let request = Request::new(
        42,
        method::COMMAND_INVOKE,
        object(vec![("isolate_id", number(7)), ("command", text("calendar"))]),
    );
    let message = Message::Request(request);
    let decoded = read_back(&message);
    assert_eq!(shown(&decoded), shown(&message));
    match decoded {
        Message::Request(request) => {
            assert_eq!(request.jsonrpc, JSONRPC_VERSION);
            assert_eq!(request.id, 42);
        }
        _ => panic!("not a request"),
    }
}

#[test]
fn response_error_round_trips() {
    let response = Response::error(
        42,
        RpcError::new(code::PERMISSION_DENIED, "permission not granted"),
    );
    match read_back(&Message::Response(response)) {
        Message::Response(decoded) => {
            assert_eq!(decoded.error.unwrap().code, code::PERMISSION_DENIED);
            assert!(decoded.result.is_none());
        }
        _ => panic!("not a response"),
    }
}

#[test]
fn message_envelope_round_trips_ndjson() {
    let messages = vec![
        Message::Request(Request::new_empty(1, method::PING)),
        Message::Response(Response::ok(1, object(vec![("pong", Json::Bool(true))]))),
        Message::Notification(Notification::new(
            method::TOAST_SHOW,
            object(vec![("message", text("Copied"))]),
        )),
    ];
    for message in &messages {
        assert_eq!(shown(&read_back(message)), shown(message));
    }
    let mut wire = String::new();
    for document in ["{\"id\":1}", "[]", "\"a b\""] {
        wire.push_str(&encode_line(document));
    }
    let decoded = wire.lines().filter_map(decode_line).collect::<Vec<_>>();
    assert_eq!(decoded, vec!["{\"id\":1}", "[]", "\"a b\""]);
}

#[test]
fn blank_lines_are_skipped() {
    assert_eq!(decode_line(""), None);
    assert_eq!(decode_line("  \n"), None);
}

#[test]
fn clipboard_entry_round_trips() {
    for copied_at in [1_752_000_000, -5] {
        let entry = ClipboardEntry {
            id: "7".into(),
            text: "hello".into(),
            copied_at,
        };
        let decoded = ClipboardEntry::from_json(&entry.to_json()).unwrap();
        assert_eq!(decoded, entry);
    }
    assert_eq!(ClipboardEntry::from_json(&object(vec![("id", text("7"))])), None);
}

#[test]
fn action_and_form_methods_are_distinct() {
    assert_ne!(method::ACTION_INVOKE, method::FORM_SUBMIT);
    assert_ne!(method::ACTION_INVOKE, method::ITEM_INVOKE);
    // The request params for a form submit carry a values object that
    // survives a JSON round trip.
    let request = Request::new(
        9,
        method::FORM_SUBMIT,
        object(vec![
            ("isolate_id", number(3)),
            ("values", object(vec![("name", text("Ada"))])),
        ]),
    );
    match read_back(&Message::Request(request)) {
        Message::Request(decoded) => assert_eq!(
            decoded.params.get("values").unwrap().get_str("name").as_deref(),
            Some("Ada")
        ),
        _ => panic!("not a request"),
    }
}

#[test]
fn envelopes_are_told_apart_by_id_and_method() {
    let version = ("jsonrpc", text("2.0"));
    let both = object(vec![version.clone(), ("id", number(1)), ("method", text("m"))]);
    match Message::from_json(&both).unwrap() {
        Message::Request(request) => assert!(matches!(request.params, Json::Null)),
        _ => panic!("not a request"),
    }
    let method_only = object(vec![version.clone(), ("method", text("m"))]);
    assert!(matches!(
        Message::from_json(&method_only),
        Some(Message::Notification(_))
    ));
    let id_only = object(vec![version.clone(), ("id", number(1)), ("result", Json::Null)]);
    match Message::from_json(&id_only).unwrap() {
        Message::Response(response) => assert!(response.result.is_none()),
        _ => panic!("not a response"),
    }
    let broken = object(vec![version.clone(), ("id", number(1)), ("error", text("x"))]);
    assert!(Message::from_json(&broken).is_none());
    assert!(Message::from_json(&object(vec![version])).is_none());
    assert!(Message::from_json(&object(vec![("id", number(1))])).is_none());
}

#[test]
fn host_requests_have_the_prefix() {
    assert!(is_host_request(method::HOST_FS_READ));
    assert!(is_host_request(method::HOST_FS_WRITE));
    assert!(is_host_request(method::HOST_NET_REQUEST));
    assert!(!is_host_request(method::PLUGIN_LOAD));
    assert!(!is_host_request("hos"));
}
