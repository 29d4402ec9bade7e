//! Messages between the launcher and a plugin runtime: JSON-RPC 2.0 envelopes,
//! one JSON document per line.

use vstd::prelude::*;

use crate::json::{
    array_view, field_views, find_field, item_views, object, put_field, text_value, Json, JsonView,
    Number,
};
use crate::text::{
    blank, is_blank, starts_with, has_prefix, trim, trimmed, trimmed_ignores_white_end,
    trimmed_is_empty_iff_blank,
};

pub mod code;
pub mod method;

verus! {

/// Protocol version marker, present on every message.
pub const JSONRPC_VERSION: &'static str = "2.0";

/// One entry of the clipboard history.
#[derive(Debug, PartialEq, Eq)]
pub struct ClipboardEntry {
    /// Stable id within a snapshot.
    pub id: String,
    /// The clipboard text.
    pub text: String,
    /// UNIX timestamp in seconds when the text was copied.
    pub copied_at: i64,
}

/// What a [`ClipboardEntry`] is.
pub struct ClipboardView {
    pub id: Seq<char>,
    pub text: Seq<char>,
    pub copied_at: i64,
}

impl View for ClipboardEntry {
    type V = ClipboardView;

    open spec fn view(&self) -> ClipboardView {
        ClipboardView { id: self.id@, text: self.text@, copied_at: self.copied_at }
    }
}

/// The views of a list of clipboard entries.
pub open spec fn clipboard_views(v: Seq<ClipboardEntry>) -> Seq<ClipboardView> {
    v.map_values(|e: ClipboardEntry| e@)
}

/// JSON-RPC error object.
#[derive(Debug, PartialEq, Eq)]
pub struct RpcError {
    pub code: i64,
    pub message: String,
}

/// What an [`RpcError`] is.
pub struct ErrorView {
    pub code: i64,
    pub message: Seq<char>,
}

impl View for RpcError {
    type V = ErrorView;

    open spec fn view(&self) -> ErrorView {
        ErrorView { code: self.code, message: self.message@ }
    }
}

/// A request to a plugin runtime.
#[derive(Debug)]
pub struct Request {
    pub jsonrpc: String,
    pub id: u64,
    pub method: String,
    pub params: Json,
}

/// What a [`Request`] is.
pub struct RequestView {
    pub jsonrpc: Seq<char>,
    pub id: u64,
    pub method: Seq<char>,
    pub params: JsonView,
}

impl View for Request {
    type V = RequestView;

    open spec fn view(&self) -> RequestView {
        RequestView {
            jsonrpc: self.jsonrpc@,
            id: self.id,
            method: self.method@,
            params: self.params@,
        }
    }
}

/// The response to a request. A well-formed one has a result or an error, not both.
#[derive(Debug)]
pub struct Response {
    pub jsonrpc: String,
    pub id: u64,
    pub result: Option<Json>,
    pub error: Option<RpcError>,
}

/// What a [`Response`] is.
pub struct ResponseView {
    pub jsonrpc: Seq<char>,
    pub id: u64,
    pub result: Option<JsonView>,
    pub error: Option<ErrorView>,
}

/// The view of an optional JSON value.
pub open spec fn opt_json(o: Option<Json>) -> Option<JsonView> {
    match o {
        Some(j) => Some(j@),
        None => None,
    }
}

/// The view of an optional error.
pub open spec fn opt_error(o: Option<RpcError>) -> Option<ErrorView> {
    match o {
        Some(e) => Some(e@),
        None => None,
    }
}

impl View for Response {
    type V = ResponseView;

    open spec fn view(&self) -> ResponseView {
        ResponseView {
            jsonrpc: self.jsonrpc@,
            id: self.id,
            result: opt_json(self.result),
            error: opt_error(self.error),
        }
    }
}

/// A message without an id, which is not answered.
#[derive(Debug)]
pub struct Notification {
    pub jsonrpc: String,
    pub method: String,
    pub params: Json,
}

/// What a [`Notification`] is.
pub struct NotificationView {
    pub jsonrpc: Seq<char>,
    pub method: Seq<char>,
    pub params: JsonView,
}

impl View for Notification {
    type V = NotificationView;

    open spec fn view(&self) -> NotificationView {
        NotificationView { jsonrpc: self.jsonrpc@, method: self.method@, params: self.params@ }
    }
}

/// One message on the wire.
#[derive(Debug)]
pub enum Message {
    Request(Request),
    Response(Response),
    Notification(Notification),
}

/// What a [`Message`] is.
pub enum MessageView {
    Request(RequestView),
    Response(ResponseView),
    Notification(NotificationView),
}

impl View for Message {
    type V = MessageView;

    open spec fn view(&self) -> MessageView {
        match *self {
            Message::Request(m) => MessageView::Request(m@),
            Message::Response(m) => MessageView::Response(m@),
            Message::Notification(m) => MessageView::Notification(m@),
        }
    }
}

impl Clone for ClipboardEntry {
    fn clone(&self) -> (r: Self)
        ensures
            r == *self,
    {
        ClipboardEntry { id: self.id.clone(), text: self.text.clone(), copied_at: self.copied_at }
    }
}

impl Clone for RpcError {
    fn clone(&self) -> (r: Self)
        ensures
            r == *self,
    {
        RpcError { code: self.code, message: self.message.clone() }
    }
}

impl RpcError {
    /// An error with the given code and message.
    pub fn new(code: i64, message: &str) -> (r: Self)
        ensures
            r@ == (ErrorView { code, message: message@ }),
    {
        RpcError { code, message: message.to_owned() }
    }
}

/// The request with the given id, method and parameters.
pub open spec fn request(id: u64, method: Seq<char>, params: JsonView) -> RequestView {
    RequestView { jsonrpc: JSONRPC_VERSION@, id, method, params }
}

impl Request {
    /// A request with the given id, method and parameters.
    pub fn new(id: u64, method: &str, params: Json) -> (r: Self)
        ensures
            r@ == request(id, method@, params@),
    {
        Request { jsonrpc: JSONRPC_VERSION.to_owned(), id, method: method.to_owned(), params }
    }

    /// A request without meaningful parameters.
    pub fn new_empty(id: u64, method: &str) -> (r: Self)
        ensures
            r@ == request(id, method@, JsonView::Null),
    {
        Request::new(id, method, Json::Null)
    }
}

impl Response {
    /// The response that carries a result.
    pub fn ok(id: u64, result: Json) -> (r: Self)
        ensures
            r@ == (ResponseView {
                jsonrpc: JSONRPC_VERSION@,
                id,
                result: Some(result@),
                error: None,
            }),
    {
        Response { jsonrpc: JSONRPC_VERSION.to_owned(), id, result: Some(result), error: None }
    }

    /// The response that carries an error.
    pub fn error(id: u64, error: RpcError) -> (r: Self)
        ensures
            r@ == (ResponseView {
                jsonrpc: JSONRPC_VERSION@,
                id,
                result: None,
                error: Some(error@),
            }),
    {
        Response { jsonrpc: JSONRPC_VERSION.to_owned(), id, result: None, error: Some(error) }
    }
}

impl Notification {
    /// A notification with the given method and parameters.
    pub fn new(method: &str, params: Json) -> (r: Self)
        ensures
            r@ == (NotificationView {
                jsonrpc: JSONRPC_VERSION@,
                method: method@,
                params: params@,
            }),
    {
        Notification { jsonrpc: JSONRPC_VERSION.to_owned(), method: method.to_owned(), params }
    }
}

/// Whether a method is a request from the runtime to the host: these have the
/// prefix `host.`.
pub fn is_host_request(method: &str) -> (r: bool)
    ensures
        r == has_prefix(method@, "host."@),
{
    starts_with(method, "host.")
}

/// A signed integer as a JSON number.
pub open spec fn signed_json(n: i64) -> JsonView {
    if n >= 0 {
        JsonView::Number(Number::Pos(n as u64))
    } else {
        JsonView::Number(Number::Neg(n))
    }
}

/// A signed integer as a JSON number.
pub fn signed_value(n: i64) -> (r: Json)
    ensures
        r@ == signed_json(n),
{
    if n >= 0 {
        Json::Number(Number::Pos(n as u64))
    } else {
        Json::Number(Number::Neg(n))
    }
}

/// An unsigned integer as a JSON number.
pub open spec fn unsigned_json(n: u64) -> JsonView {
    JsonView::Number(Number::Pos(n))
}

/// A clipboard entry in JSON.
pub open spec fn clipboard_json(e: ClipboardView) -> JsonView {
    JsonView::Object(
        seq![
            ("id"@, JsonView::Str(e.id)),
            ("text"@, JsonView::Str(e.text)),
            ("copied_at"@, signed_json(e.copied_at)),
        ],
    )
}

/// A list of clipboard entries in JSON.
pub open spec fn history_json(v: Seq<ClipboardView>) -> JsonView {
    JsonView::Array(v.map_values(|e: ClipboardView| clipboard_json(e)))
}

impl ClipboardEntry {
    /// The entry in JSON.
    pub fn to_json(&self) -> (r: Json)
        ensures
            r@ == clipboard_json(self@),
    {
        let mut fields: Vec<(String, Json)> = Vec::new();
        put_field(&mut fields, "id", text_value(self.id.as_str()));
        put_field(&mut fields, "text", text_value(self.text.as_str()));
        put_field(&mut fields, "copied_at", signed_value(self.copied_at));
        assert(field_views(fields@) =~= clipboard_json(self@)->Object_0);
        object(fields)
    }

    /// The entry that a JSON value writes down.
    pub fn from_json(value: &Json) -> (r: Option<ClipboardEntry>)
        ensures
            match r {
                Some(e) => parse_clipboard(value@) == Some(e@),
                None => parse_clipboard(value@) is None,
            },
    {
        match (value.get_str("id"), value.get_str("text"), value.get_i64("copied_at")) {
            (Some(id), Some(text), Some(copied_at)) => Some(ClipboardEntry { id, text, copied_at }),
            _ => None,
        }
    }
}

/// The entry that a JSON value writes down.
pub open spec fn parse_clipboard(j: JsonView) -> Option<ClipboardView> {
    match (j.text_field("id"@), j.text_field("text"@), j.signed_field("copied_at"@)) {
        (Some(id), Some(text), Some(copied_at)) => Some(ClipboardView { id, text, copied_at }),
        _ => None,
    }
}

/// The clipboard history in JSON.
pub fn history_value(v: &Vec<ClipboardEntry>) -> (r: Json)
    ensures
        r@ == history_json(clipboard_views(v@)),
{
    broadcast use array_view;

    let mut w: Vec<Json> = Vec::new();
    let mut i: usize = 0;
    while i < v.len()
        invariant
            i <= v.len(),
            w@.len() == i,
            forall|j: int| 0 <= j < i ==> (#[trigger] w@[j])@ == clipboard_json(v@[j]@),
        decreases v.len() - i,
    {
        w.push(v[i].to_json());
        i += 1;
    }
    assert(item_views(w@) =~= clipboard_views(v@).map_values(
        |e: ClipboardView| clipboard_json(e),
    ));
    Json::Array(w)
}

/// An error in JSON.
pub open spec fn error_json(e: ErrorView) -> JsonView {
    JsonView::Object(
        seq![("code"@, signed_json(e.code)), ("message"@, JsonView::Str(e.message))],
    )
}

/// A message in JSON. A result or an error that is absent is left out.
pub open spec fn message_json(m: MessageView) -> JsonView {
    match m {
        MessageView::Request(r) => JsonView::Object(
            seq![
                ("jsonrpc"@, JsonView::Str(r.jsonrpc)),
                ("id"@, unsigned_json(r.id)),
                ("method"@, JsonView::Str(r.method)),
                ("params"@, r.params),
            ],
        ),
        MessageView::Response(r) => JsonView::Object(
            seq![("jsonrpc"@, JsonView::Str(r.jsonrpc)), ("id"@, unsigned_json(r.id))] + (
            match r.result {
                Some(v) => seq![("result"@, v)],
                None => seq![],
            }) + (match r.error {
                Some(e) => seq![("error"@, error_json(e))],
                None => seq![],
            }),
        ),
        MessageView::Notification(n) => JsonView::Object(
            seq![
                ("jsonrpc"@, JsonView::Str(n.jsonrpc)),
                ("method"@, JsonView::Str(n.method)),
                ("params"@, n.params),
            ],
        ),
    }
}

/// The field `params`, which may be left out.
pub open spec fn params_of(j: JsonView) -> JsonView {
    match j.field("params"@) {
        Some(p) => p,
        None => JsonView::Null,
    }
}

/// The error that a JSON value writes down.
pub open spec fn parse_error(j: JsonView) -> Option<ErrorView> {
    match (j.signed_field("code"@), j.text_field("message"@)) {
        (Some(code), Some(message)) => Some(ErrorView { code, message }),
        _ => None,
    }
}

/// The message that a JSON value writes down: a request where it has an id and
/// a method, else a response where it has an id, else a notification where it
/// has a method. A result or an error that is null counts as absent.
pub open spec fn parse_message(j: JsonView) -> Option<MessageView> {
    match j.text_field("jsonrpc"@) {
        None => None,
        Some(jsonrpc) => match (j.unsigned_field("id"@), j.text_field("method"@)) {
            (Some(id), Some(method)) => Some(
                MessageView::Request(RequestView { jsonrpc, id, method, params: params_of(j) }),
            ),
            (Some(id), None) => {
                let result = match j.field("result"@) {
                    Some(JsonView::Null) => None,
                    r => r,
                };
                match j.field("error"@) {
                    None | Some(JsonView::Null) => Some(
                        MessageView::Response(ResponseView { jsonrpc, id, result, error: None }),
                    ),
                    Some(e) => match parse_error(e) {
                        Some(e) => Some(
                            MessageView::Response(
                                ResponseView { jsonrpc, id, result, error: Some(e) },
                            ),
                        ),
                        None => None,
                    },
                }
            },
            (None, Some(method)) => Some(
                MessageView::Notification(
                    NotificationView { jsonrpc, method, params: params_of(j) },
                ),
            ),
            (None, None) => None,
        },
    }
}

/// The view of an optional message.
pub open spec fn opt_message(o: Option<Message>) -> Option<MessageView> {
    match o {
        Some(m) => Some(m@),
        None => None,
    }
}

impl Message {
    /// The message in JSON.
    pub fn to_json(&self) -> (r: Json)
        ensures
            r@ == message_json(self@),
    {
        let mut fields: Vec<(String, Json)> = Vec::new();
        match self {
            Message::Request(m) => {
                put_field(&mut fields, "jsonrpc", text_value(m.jsonrpc.as_str()));
                put_field(&mut fields, "id", Json::Number(Number::Pos(m.id)));
                put_field(&mut fields, "method", text_value(m.method.as_str()));
                put_field(&mut fields, "params", m.params.clone());
            },
            Message::Response(m) => {
                put_field(&mut fields, "jsonrpc", text_value(m.jsonrpc.as_str()));
                put_field(&mut fields, "id", Json::Number(Number::Pos(m.id)));
                if let Some(result) = &m.result {
                    put_field(&mut fields, "result", result.clone());
                }
                if let Some(error) = &m.error {
                    let mut e: Vec<(String, Json)> = Vec::new();
                    put_field(&mut e, "code", signed_value(error.code));
                    put_field(&mut e, "message", text_value(error.message.as_str()));
                    assert(field_views(e@) =~= error_json(error@)->Object_0);
                    put_field(&mut fields, "error", object(e));
                }
            },
            Message::Notification(m) => {
                put_field(&mut fields, "jsonrpc", text_value(m.jsonrpc.as_str()));
                put_field(&mut fields, "method", text_value(m.method.as_str()));
                put_field(&mut fields, "params", m.params.clone());
            },
        }
        assert(field_views(fields@) =~= message_json(self@)->Object_0);
        object(fields)
    }

    /// The message that a JSON value writes down.
    pub fn from_json(value: &Json) -> (r: Option<Message>)
        ensures
            opt_message(r) == parse_message(value@),
    {
        let jsonrpc = match value.get_str("jsonrpc") {
            Some(s) => s,
            None => {
                return None;
            },
        };
        let method = value.get_str("method");
        match value.get_u64("id") {
            Some(id) => match method {
                Some(method) => {
                    let params = params_in(value);
                    Some(Message::Request(Request { jsonrpc, id, method, params }))
                },
                None => {
                    let result = match value.get("result") {
                        Some(Json::Null) => None,
                        Some(v) => Some(v.clone()),
                        None => None,
                    };
                    match value.get("error") {
                        Some(Json::Null) => Some(
                            Message::Response(Response { jsonrpc, id, result, error: None }),
                        ),
                        None => Some(
                            Message::Response(Response { jsonrpc, id, result, error: None }),
                        ),
                        Some(e) => match (e.get_i64("code"), e.get_str("message")) {
                            (Some(code), Some(message)) => Some(
                                Message::Response(
                                    Response {
                                        jsonrpc,
                                        id,
                                        result,
                                        error: Some(RpcError { code, message }),
                                    },
                                ),
                            ),
                            _ => None,
                        },
                    }
                },
            },
            None => match method {
                Some(method) => {
                    let params = params_in(value);
                    Some(Message::Notification(Notification { jsonrpc, method, params }))
                },
                None => None,
            },
        }
    }
}

/// The field `params`, which may be left out.
fn params_in(value: &Json) -> (r: Json)
    ensures
        r@ == params_of(value@),
{
    match value.get("params") {
        Some(p) => p.clone(),
        None => Json::Null,
    }
}

/// A JSON document as one line of the stream.
pub fn encode_line(document: &str) -> (r: String)
    ensures
        r@ == document@.push('\n'),
{
    let mut line = document.to_owned();
    line.push('\n');
    line
}

/// The JSON document on a line of the stream, without the white space around
/// it. A blank line holds none.
pub fn decode_line(line: &str) -> (r: Option<String>)
    ensures
        match r {
            Some(document) => !blank(line@) && document@ == trimmed(line@),
            None => blank(line@),
        },
{
    if is_blank(line) {
        None
    } else {
        Some(trim(line))
    }
}

proof fn lemma_field_names()
    ensures
        "jsonrpc"@ != "id"@,
        "jsonrpc"@ != "method"@,
        "jsonrpc"@ != "params"@,
        "jsonrpc"@ != "result"@,
        "jsonrpc"@ != "error"@,
        "id"@ != "method"@,
        "id"@ != "params"@,
        "id"@ != "result"@,
        "id"@ != "error"@,
        "method"@ != "params"@,
        "method"@ != "result"@,
        "method"@ != "error"@,
        "result"@ != "error"@,
        "code"@ != "message"@,
        "id"@ != "text"@,
        "id"@ != "copied_at"@,
        "text"@ != "copied_at"@,
{
    reveal_strlit("jsonrpc");
    reveal_strlit("id");
    reveal_strlit("method");
    reveal_strlit("params");
    reveal_strlit("result");
    reveal_strlit("error");
    reveal_strlit("code");
    reveal_strlit("message");
    reveal_strlit("text");
    reveal_strlit("copied_at");
    assert("jsonrpc"@.len() == 7 && "id"@.len() == 2 && "error"@.len() == 5);
    assert("method"@.len() == 6 && "params"@.len() == 6 && "result"@.len() == 6);
    assert("code"@.len() == 4 && "message"@.len() == 7);
    assert("text"@.len() == 4 && "copied_at"@.len() == 9);
    assert("method"@[0] != "params"@[0]);
    assert("method"@[0] != "result"@[0]);
}

/// A message that is written down in JSON is read back as it was, but for a
/// response whose result is null: a null result is read as no result.
pub proof fn message_round_trips(m: MessageView)
    requires
        m matches MessageView::Response(r) ==> r.result != Some(JsonView::Null),
    ensures
        parse_message(message_json(m)) == Some(m),
{
    lemma_field_names();
    reveal_with_fuel(find_field, 5);
    let fields = message_json(m)->Object_0;
    match m {
        MessageView::Request(r) => {
            assert(fields.drop_first()[0] == fields[1]);
            assert(fields.drop_first().drop_first()[0] == fields[2]);
            assert(fields.drop_first().drop_first().drop_first()[0] == fields[3]);
        },
        MessageView::Response(r) => {
            let f1 = fields.drop_first();
            let f2 = f1.drop_first();
            assert(f1[0] == fields[1]);
            match (r.result, r.error) {
                (Some(v), Some(e)) => {
                    assert(f2[0] == fields[2]);
                    assert(f2.drop_first()[0] == fields[3]);
                    let ef = error_json(e)->Object_0;
                    assert(ef.drop_first()[0] == ef[1]);
                    assert(parse_error(error_json(e)) == Some(e));
                },
                (Some(v), None) => {
                    assert(f2[0] == fields[2]);
                },
                (None, Some(e)) => {
                    assert(f2[0] == fields[2]);
                    let ef = error_json(e)->Object_0;
                    assert(ef.drop_first()[0] == ef[1]);
                    assert(parse_error(error_json(e)) == Some(e));
                },
                (None, None) => {},
            }
        },
        MessageView::Notification(n) => {
            assert(fields.drop_first()[0] == fields[1]);
            assert(fields.drop_first().drop_first()[0] == fields[2]);
        },
    }
}

/// A clipboard entry that is written down in JSON is read back as it was.
pub proof fn clipboard_entry_is_read_back(e: ClipboardView)
    ensures
        parse_clipboard(clipboard_json(e)) == Some(e),
{
    lemma_field_names();
    reveal_with_fuel(find_field, 4);
    let fields = clipboard_json(e)->Object_0;
    assert(fields.drop_first()[0] == fields[1]);
    assert(fields.drop_first().drop_first()[0] == fields[2]);
}

/// What [`encode_line`] puts on a line, [`decode_line`] takes off it, but for
/// white space around the document.
pub proof fn line_round_trips(document: Seq<char>)
    ensures
        trimmed(document.push('\n')) == trimmed(document),
        blank(document.push('\n')) == blank(document),
{
    let line = document.push('\n');
    trimmed_ignores_white_end(document, '\n');
    trimmed_is_empty_iff_blank(document);
    trimmed_is_empty_iff_blank(line);
}

} // verus!
