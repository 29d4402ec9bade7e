//! How messages are written and read.

use vstd::prelude::*;

use crate::json::{lemma_find_at, JsonView, Number};
use crate::protocol::{
    clipboard_json, code, error_json, message_json, method, parse_clipboard, parse_error,
    parse_message, signed_json, ClipboardView, ErrorView, MessageView,
    NotificationView, RequestView, ResponseView,
};

verus! {

proof fn lemma_names()
    ensures
        "id"@.len() == 2,
        "code"@.len() == 4,
        "text"@.len() == 4 && "text"@[0] == 't',
        "error"@.len() == 5,
        "method"@.len() == 6 && "method"@[0] == 'm',
        "params"@.len() == 6 && "params"@[0] == 'p',
        "result"@.len() == 6 && "result"@[0] == 'r',
        "jsonrpc"@.len() == 7 && "jsonrpc"@[0] == 'j',
        "message"@.len() == 7,
        "copied_at"@.len() == 9,
{
    reveal_strlit("id");
    reveal_strlit("code");
    reveal_strlit("text");
    reveal_strlit("error");
    reveal_strlit("method");
    reveal_strlit("params");
    reveal_strlit("result");
    reveal_strlit("jsonrpc");
    reveal_strlit("message");
    reveal_strlit("copied_at");
}

/// A request is written with its version, its id, its method and its parameters, and
/// with nothing else.
pub proof fn requests_are_written_by_name(r: RequestView)
    ensures
        ({
            let j = message_json(MessageView::Request(r));
            &&& j is Object && j->Object_0.len() == 4
            &&& j.field("jsonrpc"@) == Some(JsonView::Str(r.jsonrpc))
            &&& j.field("id"@) == Some(JsonView::Number(Number::Pos(r.id)))
            &&& j.field("method"@) == Some(JsonView::Str(r.method))
            &&& j.field("params"@) == Some(r.params)
        }),
{
    lemma_names();
    let fields = message_json(MessageView::Request(r))->Object_0;
    lemma_find_at(fields, "jsonrpc"@, 0);
    lemma_find_at(fields, "id"@, 1);
    lemma_find_at(fields, "method"@, 2);
    lemma_find_at(fields, "params"@, 3);
}

/// A notification is written as a request without an id.
pub proof fn notifications_are_written_by_name(n: NotificationView)
    ensures
        ({
            let j = message_json(MessageView::Notification(n));
            &&& j is Object && j->Object_0.len() == 3
            &&& j.field("jsonrpc"@) == Some(JsonView::Str(n.jsonrpc))
            &&& j.field("method"@) == Some(JsonView::Str(n.method))
            &&& j.field("params"@) == Some(n.params)
            &&& j.field("id"@) is None
        }),
{
    lemma_names();
    let fields = message_json(MessageView::Notification(n))->Object_0;
    lemma_find_at(fields, "jsonrpc"@, 0);
    lemma_find_at(fields, "method"@, 1);
    lemma_find_at(fields, "params"@, 2);
    lemma_find_at(fields, "id"@, 3);
}

/// A response is written with its version and the id of its request, and with the result
/// or the error that it has; what it does not have is left out.
pub proof fn responses_are_written_by_name(r: ResponseView)
    ensures
        ({
            let j = message_json(MessageView::Response(r));
            &&& j.field("jsonrpc"@) == Some(JsonView::Str(r.jsonrpc))
            &&& j.field("id"@) == Some(JsonView::Number(Number::Pos(r.id)))
            &&& j.field("method"@) is None
            &&& j.field("result"@) == r.result
            &&& match r.error {
                Some(e) => j.field("error"@) == Some(error_json(e)),
                None => j.field("error"@) is None,
            }
        }),
{
    lemma_names();
    let fields = message_json(MessageView::Response(r))->Object_0;
    let n = fields.len() as int;
    lemma_find_at(fields, "jsonrpc"@, 0);
    lemma_find_at(fields, "id"@, 1);
    lemma_find_at(fields, "method"@, n);
    match (r.result, r.error) {
        (Some(_), Some(_)) => {
            lemma_find_at(fields, "result"@, 2);
            lemma_find_at(fields, "error"@, 3);
        },
        (Some(_), None) => {
            lemma_find_at(fields, "result"@, 2);
            lemma_find_at(fields, "error"@, n);
        },
        (None, Some(_)) => {
            lemma_find_at(fields, "result"@, n);
            lemma_find_at(fields, "error"@, 2);
        },
        (None, None) => {
            lemma_find_at(fields, "result"@, n);
            lemma_find_at(fields, "error"@, n);
        },
    }
}

/// An error is written with its code and its message, and a number with its sign.
pub proof fn errors_are_written_by_name(e: ErrorView)
    ensures
        error_json(e).signed_field("code"@) == Some(e.code),
        error_json(e).text_field("message"@) == Some(e.message),
        e.code < 0 ==> error_json(e).field("code"@) == Some(
            JsonView::Number(Number::Neg(e.code)),
        ),
        e.code >= 0 ==> error_json(e).field("code"@) == Some(
            JsonView::Number(Number::Pos(e.code as u64)),
        ),
{
    lemma_names();
    let fields = error_json(e)->Object_0;
    lemma_find_at(fields, "code"@, 0);
    lemma_find_at(fields, "message"@, 1);
    assert(signed_json(e.code) == fields[0].1);
}

/// An entry of the clipboard history is written with its id, its text and its time.
pub proof fn clipboard_entries_are_written_by_name(e: ClipboardView)
    ensures
        clipboard_json(e).text_field("id"@) == Some(e.id),
        clipboard_json(e).text_field("text"@) == Some(e.text),
        clipboard_json(e).signed_field("copied_at"@) == Some(e.copied_at),
        clipboard_json(e)->Object_0.len() == 3,
{
    lemma_names();
    let fields = clipboard_json(e)->Object_0;
    lemma_find_at(fields, "id"@, 0);
    lemma_find_at(fields, "text"@, 1);
    lemma_find_at(fields, "copied_at"@, 2);
}

/// The parameters of a message; nothing where it has none.
pub open spec fn params_read(j: JsonView) -> JsonView {
    match j.field("params"@) {
        Some(p) => p,
        None => JsonView::Null,
    }
}

/// What has a version, an id and a method is read as a request, what has no id as a
/// notification; what has neither an id nor a method, or no version, is no message.
pub proof fn messages_are_read_by_their_fields(j: JsonView, version: Seq<char>, id: u64, name: Seq<char>)
    ensures
        j.text_field("jsonrpc"@) is None ==> parse_message(j) is None,
        j.unsigned_field("id"@) is None && j.text_field("method"@) is None ==> parse_message(
            j,
        ) is None,
        j.text_field("jsonrpc"@) == Some(version) && j.unsigned_field("id"@) == Some(id)
            && j.text_field("method"@) == Some(name) ==> parse_message(j) == Some(
            MessageView::Request(
                RequestView { jsonrpc: version, id, method: name, params: params_read(j) },
            ),
        ),
        j.text_field("jsonrpc"@) == Some(version) && j.unsigned_field("id"@) is None
            && j.text_field("method"@) == Some(name) ==> parse_message(j) == Some(
            MessageView::Notification(
                NotificationView { jsonrpc: version, method: name, params: params_read(j) },
            ),
        ),
{
}

/// Whether a field is there and is not null.
pub open spec fn is_given(j: JsonView, key: Seq<char>) -> bool {
    j.field(key) is Some && !(j.field(key)->0 is Null)
}

/// What has a version, an id and no method is read as a response, with the result and
/// the error that are given; an error has to have a code and a message.
pub proof fn responses_are_read_by_their_fields(j: JsonView, version: Seq<char>, id: u64)
    requires
        j.text_field("jsonrpc"@) == Some(version),
        j.unsigned_field("id"@) == Some(id),
        j.text_field("method"@) is None,
    ensures
        ({
            let result = if is_given(j, "result"@) {
                j.field("result"@)
            } else {
                None
            };
            if !is_given(j, "error"@) {
                parse_message(j) == Some(
                    MessageView::Response(
                        ResponseView { jsonrpc: version, id, result, error: None },
                    ),
                )
            } else {
                let e = j.field("error"@)->0;
                match (e.signed_field("code"@), e.text_field("message"@)) {
                    (Some(code), Some(message)) => parse_message(j) == Some(
                        MessageView::Response(
                            ResponseView {
                                jsonrpc: version,
                                id,
                                result,
                                error: Some(ErrorView { code, message }),
                            },
                        ),
                    ),
                    _ => parse_message(j) is None,
                }
            }
        }),
{
    if is_given(j, "error"@) {
        assert(parse_error(j.field("error"@)->0) is Some == (j.field("error"@)->0.signed_field(
            "code"@,
        ) is Some && j.field("error"@)->0.text_field("message"@) is Some));
    }
}

/// An entry of the clipboard history is read where it has an id, a text and a time.
pub proof fn clipboard_entries_are_read_by_their_fields(j: JsonView)
    ensures
        parse_clipboard(j) == (match (
            j.text_field("id"@),
            j.text_field("text"@),
            j.signed_field("copied_at"@),
        ) {
            (Some(id), Some(text), Some(copied_at)) => Some(
                ClipboardView { id, text, copied_at },
            ),
            _ => None,
        }),
{
}

/// The names of methods, and the codes of errors, on the wire.
pub proof fn names_on_the_wire()
    ensures
        method::PLUGIN_LOAD@ == "plugin.load"@,
        method::COMMAND_INVOKE@ == "command.invoke"@,
        method::ITEM_INVOKE@ == "item.invoke"@,
        method::ACTION_INVOKE@ == "action.invoke"@,
        method::FORM_SUBMIT@ == "form.submit"@,
        method::SEARCH_QUERY@ == "search.query"@,
        method::PLUGIN_UNLOAD@ == "plugin.unload"@,
        method::PING@ == "ping"@,
        method::TOAST_SHOW@ == "toast.show"@,
        method::OPEN_URL@ == "open.url"@,
        method::OPEN_PATH@ == "open.path"@,
        method::HOST_FS_READ@ == "host.fs.read"@,
        method::HOST_FS_WRITE@ == "host.fs.write"@,
        method::HOST_NET_REQUEST@ == "host.net.request"@,
        code::PARSE_ERROR == -32700,
        code::INVALID_REQUEST == -32600,
        code::METHOD_NOT_FOUND == -32601,
        code::INVALID_PARAMS == -32602,
        code::INTERNAL_ERROR == -32603,
        code::PERMISSION_DENIED == -32000,
        code::TIMEOUT == -32001,
        code::PLUGIN_NOT_FOUND == -32002,
        code::COMMAND_NOT_FOUND == -32003,
        code::UNSUPPORTED_PERMISSION == -32004,
{
}

} // verus!
