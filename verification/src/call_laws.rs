//! What the host sends for a call, and what it tells of the answer.

use vstd::prelude::*;

use crate::host::{
    all_dispatched, answer_events, backoff_delay, call_params, called, connections_for, crashed,
    dedicated_ids, dispatched, failure, flushed, gone_stale, has_isolate, isolations, load_params,
    metas_by_id, plugins_set, received, responded, restarted, same_plugins, shut_down, unsent, waiting,
    CallView, EventView, FrameView, HostState, OutgoingView, PendingView,
};
use crate::host_laws::sound;
use crate::json::{lemma_find_at, JsonView, Number};
use crate::manifest::{manifest_json, Isolation, MetaView, Permission};
use crate::protocol::{
    clipboard_json, ErrorView, NotificationView, RequestView, ResponseView,
};

verus! {

proof fn lemma_names()
    ensures
        "isolate_id"@ != "command"@,
        "isolate_id"@ != "input"@,
        "isolate_id"@ != "deadline_ms"@,
        "isolate_id"@ != "item_id"@,
        "isolate_id"@ != "action_id"@,
        "isolate_id"@ != "values"@,
        "isolate_id"@ != "query"@,
        "command"@ != "input"@,
        "command"@ != "deadline_ms"@,
        "input"@ != "deadline_ms"@,
        "item_id"@ != "deadline_ms"@,
        "action_id"@ != "deadline_ms"@,
        "action_id"@ != "item_id"@,
        "values"@ != "deadline_ms"@,
        "query"@ != "deadline_ms"@,
        "clipboard_history"@ != "isolate_id"@,
        "clipboard_history"@ != "command"@,
        "clipboard_history"@ != "input"@,
        "clipboard_history"@ != "deadline_ms"@,
        "id"@ != "entry_path"@,
        "id"@ != "manifest"@,
        "entry_path"@ != "manifest"@,
        "message"@ != "kind"@,
{
    reveal_strlit("isolate_id");
    reveal_strlit("command");
    reveal_strlit("input");
    reveal_strlit("deadline_ms");
    reveal_strlit("item_id");
    reveal_strlit("action_id");
    reveal_strlit("values");
    reveal_strlit("query");
    reveal_strlit("clipboard_history");
    reveal_strlit("id");
    reveal_strlit("entry_path");
    reveal_strlit("manifest");
    reveal_strlit("message");
    reveal_strlit("kind");
    assert("isolate_id"@[0] == 'i' && "isolate_id"@.len() == 10);
    assert("input"@[0] == 'i' && "input"@.len() == 5);
    assert("item_id"@[0] == 'i' && "item_id"@.len() == 7);
    assert("command"@[0] == 'c' && "command"@.len() == 7);
    assert("clipboard_history"@[0] == 'c' && "clipboard_history"@.len() == 17);
    assert("deadline_ms"@[0] == 'd' && "action_id"@[0] == 'a' && "values"@[0] == 'v');
    assert("query"@[0] == 'q');
    assert("id"@.len() == 2 && "entry_path"@.len() == 10 && "manifest"@.len() == 8);
    assert("message"@.len() == 7 && "kind"@.len() == 4);
}

/// The name by which a call is made over the wire.
pub open spec fn wire_name(call: CallView) -> Seq<char> {
    match call {
        CallView::Command { .. } => "command.invoke"@,
        CallView::Item { .. } => "item.invoke"@,
        CallView::Action { .. } => "action.invoke"@,
        CallView::Submit { .. } => "form.submit"@,
        CallView::Search { .. } => "search.query"@,
    }
}

/// A call is sent with what it was made with: the isolate of its plugin, a
/// deadline, and the command and input, the item, the action, the values or the
/// query that were called for.
pub proof fn calls_carry_what_was_called(st: HostState, isolate_id: u64, call: CallView)
    ensures
        call.method() == wire_name(call),
        call_params(st, isolate_id, call).field("isolate_id"@) == Some(
            JsonView::Number(Number::Pos(isolate_id)),
        ),
        match call {
            CallView::Command { hit, .. } => {
                let params = call_params(st, isolate_id, call);
                &&& params.field("command"@) == Some(JsonView::Str(hit.command))
                &&& params.field("input"@) == Some(JsonView::Str(hit.input))
                &&& params.field("deadline_ms"@) == Some(
                    JsonView::Number(Number::Pos(hit.deadline_ms)),
                )
            },
            CallView::Item { item_id, .. } => {
                let params = call_params(st, isolate_id, call);
                &&& params.field("item_id"@) == Some(JsonView::Str(item_id))
                &&& params.field("deadline_ms"@) == Some(JsonView::Number(Number::Pos(500)))
            },
            CallView::Action { action_id, item_id, .. } => {
                let params = call_params(st, isolate_id, call);
                &&& params.field("action_id"@) == Some(JsonView::Str(action_id))
                &&& params.field("item_id"@) == (match item_id {
                    Some(id) => Some(JsonView::Str(id)),
                    None => None,
                })
                &&& params.field("deadline_ms"@) == Some(JsonView::Number(Number::Pos(500)))
            },
            CallView::Submit { values, .. } => {
                let params = call_params(st, isolate_id, call);
                &&& params.field("values"@) == Some(values)
                &&& params.field("deadline_ms"@) == Some(JsonView::Number(Number::Pos(500)))
            },
            CallView::Search { query, .. } => {
                let params = call_params(st, isolate_id, call);
                &&& params.field("query"@) == Some(JsonView::Str(query))
                &&& params.field("deadline_ms"@) == Some(JsonView::Number(Number::Pos(500)))
            },
        },
{
    lemma_names();
    let fields = call_params(st, isolate_id, call)->Object_0;
    lemma_find_at(fields, "isolate_id"@, 0);
    match call {
        CallView::Command { hit, .. } => {
            lemma_find_at(fields, "command"@, 1);
            lemma_find_at(fields, "input"@, 2);
            lemma_find_at(fields, "deadline_ms"@, 3);
        },
        CallView::Item { item_id, .. } => {
            lemma_find_at(fields, "item_id"@, 1);
            lemma_find_at(fields, "deadline_ms"@, 2);
        },
        CallView::Action { action_id, item_id, .. } => {
            lemma_find_at(fields, "action_id"@, 1);
            lemma_find_at(fields, "deadline_ms"@, 2);
            lemma_find_at(fields, "item_id"@, 3);
        },
        CallView::Submit { values, .. } => {
            lemma_find_at(fields, "values"@, 1);
            lemma_find_at(fields, "deadline_ms"@, 2);
        },
        CallView::Search { query, .. } => {
            lemma_find_at(fields, "query"@, 1);
            lemma_find_at(fields, "deadline_ms"@, 2);
        },
    }
}

/// Calls for different things are sent with different parameters: whatever the
/// isolate, the parameters tell two queries, two items, two actions, two forms or
/// two commands and inputs apart.
pub proof fn parameters_tell_calls_apart(st: HostState, isolate_id: u64, a: CallView, b: CallView)
    requires
        wire_name(a) == wire_name(b),
        call_params(st, isolate_id, a) == call_params(st, isolate_id, b),
    ensures
        match (a, b) {
            (CallView::Search { query: x, .. }, CallView::Search { query: y, .. }) => x == y,
            (CallView::Item { item_id: x, .. }, CallView::Item { item_id: y, .. }) => x == y,
            (
                CallView::Action { action_id: x, item_id: i, .. },
                CallView::Action { action_id: y, item_id: j, .. },
            ) => x == y && i == j,
            (CallView::Submit { values: x, .. }, CallView::Submit { values: y, .. }) => x == y,
            (CallView::Command { hit: x, .. }, CallView::Command { hit: y, .. }) => x.command
                == y.command && x.input == y.input && x.deadline_ms == y.deadline_ms,
            _ => false,
        },
{
    calls_carry_what_was_called(st, isolate_id, a);
    calls_carry_what_was_called(st, isolate_id, b);
    reveal_strlit("command.invoke");
    reveal_strlit("item.invoke");
    reveal_strlit("action.invoke");
    reveal_strlit("form.submit");
    reveal_strlit("search.query");
    assert("command.invoke"@[0] == 'c' && "item.invoke"@[0] == 'i' && "action.invoke"@[0] == 'a');
    assert("form.submit"@[0] == 'f' && "search.query"@[0] == 's');
}

/// A command of a plugin that may read the clipboard history gets all of it: an
/// entry for each text, with the text and the time at which it was copied.
pub proof fn history_is_sent_whole(st: HostState, isolate_id: u64, call: CallView, n: int)
    requires
        call is Command,
        st.loaded.contains_key(call.plugin()),
        st.loaded[call.plugin()].manifest.permissions.contains(Permission::ClipboardHistory),
        0 <= n < st.history.len(),
    ensures
        match call_params(st, isolate_id, call).items_field("clipboard_history"@) {
            Some(items) => {
                &&& items.len() == st.history.len()
                &&& items[n].text_field("id"@) == Some(st.history[n].id)
                &&& items[n].text_field("text"@) == Some(st.history[n].text)
                &&& items[n].signed_field("copied_at"@) == Some(st.history[n].copied_at)
            },
            None => false,
        },
{
    crate::host_laws::history_needs_the_permission(st, isolate_id, call);
    crate::protocol::clipboard_entry_is_read_back(st.history[n]);
    let items = call_params(st, isolate_id, call).items_field("clipboard_history"@)->0;
    assert(items[n] == clipboard_json(st.history[n]));
}

/// The connection of a plugin: its own where it has a process for itself, else
/// that of the shared pool, whose key is empty.
pub open spec fn home(st: HostState, plugin_id: Seq<char>) -> Seq<char> {
    if st.loaded.contains_key(plugin_id) && st.loaded[plugin_id].manifest.isolation
        == Isolation::DedicatedProcess {
        plugin_id
    } else {
        Seq::empty()
    }
}

/// A call to a plugin that is loaded is sent at once over the plugin's own
/// connection, under the next request id, which is answered; the call is then
/// pending under that id, and nothing else changes.
pub proof fn loaded_plugin_is_called_at_once(st: HostState, call: CallView)
    requires
        st.next_id < u64::MAX,
        st.conns.contains_key(home(st, call.plugin())),
        st.conns[home(st, call.plugin())].contains_key(call.plugin()),
    ensures
        ({
            let key = home(st, call.plugin());
            let request = RequestView {
                jsonrpc: "2.0"@,
                id: st.next_id,
                method: wire_name(call),
                params: call_params(st, st.conns[key][call.plugin()], call),
            };
            called(st, call) == (
                HostState {
                    next_id: (st.next_id + 1) as u64,
                    pending: st.pending.insert(st.next_id, PendingView::Call(call)),
                    outbox: st.outbox.push(OutgoingView { conn_key: key, request }),
                    ..st
                },
                Some(st.next_id),
            )
        }),
{
    calls_carry_what_was_called(st, st.conns[home(st, call.plugin())][call.plugin()], call);
}

/// A plugin is loaded by its id, from its entry file, with its manifest.
pub proof fn loading_names_the_plugin(meta: MetaView)
    ensures
        load_params(meta).field("id"@) == Some(JsonView::Str(meta.manifest.id)),
        load_params(meta).field("entry_path"@) == Some(JsonView::Str(meta.entry)),
        load_params(meta).field("manifest"@) == Some(manifest_json(meta.manifest)),
{
    lemma_names();
    let fields = load_params(meta)->Object_0;
    lemma_find_at(fields, "id"@, 0);
    lemma_find_at(fields, "entry_path"@, 1);
    lemma_find_at(fields, "manifest"@, 2);
}

/// A call to an installed plugin that is not loaded waits behind the calls that
/// wait already. The plugin is made to load, over its own connection, unless it is
/// being loaded; nothing else is sent.
pub proof fn cold_plugin_is_loaded_first(st: HostState, call: CallView)
    requires
        sound(st),
        st.next_id < u64::MAX,
        st.conns.contains_key(home(st, call.plugin())),
        !st.conns[home(st, call.plugin())].contains_key(call.plugin()),
        st.loaded.contains_key(call.plugin()),
    ensures
        ({
            let p = call.plugin();
            let (next, answer) = called(st, call);
            &&& answer == Some(0u64)
            &&& next.queued.contains_key(p)
            &&& next.queued[p] == (if st.queued.contains_key(p) {
                st.queued[p].push(call)
            } else {
                seq![call]
            })
            &&& forall|q: Seq<char>|
                q != p ==> (#[trigger] next.queued.contains_key(q) == st.queued.contains_key(q))
                    && (st.queued.contains_key(q) ==> next.queued[q] == st.queued[q])
            &&& next.conns == st.conns && next.loaded == st.loaded && next.routes == st.routes
            &&& if st.loading.contains_key(p) {
                next.outbox == st.outbox && next.pending == st.pending && next.loading == st.loading
                    && next.next_id == st.next_id
            } else {
                let request = RequestView {
                    jsonrpc: "2.0"@,
                    id: st.next_id,
                    method: "plugin.load"@,
                    params: load_params(st.loaded[p]),
                };
                &&& next.outbox == st.outbox.push(
                    OutgoingView { conn_key: home(st, p), request },
                )
                &&& next.pending == st.pending.insert(
                    st.next_id,
                    PendingView::Load { plugin_id: p },
                )
                &&& next.loading == st.loading.insert(p, st.next_id)
                &&& next.next_id == st.next_id + 1
            }
        }),
{
    let p = call.plugin();
    if !st.queued.contains_key(p) {
        assert(Seq::<CallView>::empty().push(call) =~= seq![call]);
    }
}

/// A call to a plugin that is not installed, or whose process does not run, is not
/// made: nothing changes.
pub proof fn unreachable_plugin_is_not_called(st: HostState, call: CallView)
    requires
        !st.conns.contains_key(home(st, call.plugin())) || (!st.loaded.contains_key(call.plugin())
            && !st.conns[home(st, call.plugin())].contains_key(call.plugin())),
    ensures
        called(st, call) == (st, None::<u64>),
{
}

/// The error that is told of a call, or none: that of the response, or that the
/// response is empty.
pub open spec fn told_error(response: ResponseView) -> Option<ErrorView> {
    match (response.error, response.result) {
        (Some(error), _) => Some(error),
        (None, Some(_)) => None,
        (None, None) => Some(ErrorView { code: -32603i64, message: "empty response"@ }),
    }
}

/// What a command or a search is answered with is told once, with the generation,
/// the plugin, the command and the query that it was called with: the result that
/// came, or the error.
pub proof fn results_are_told_as_they_came(
    st: HostState,
    key: Seq<char>,
    response: ResponseView,
)
    requires
        st.pending.contains_key(response.id),
        response.error is Some ==> response.error->0.code != -32002,
    ensures
        match st.pending[response.id] {
            PendingView::Call(CallView::Command { gen, hit }) => responded(st, key, response) == (
                HostState { pending: st.pending.remove(response.id), ..st },
                seq![
                    EventView::CommandResult {
                        gen,
                        plugin_id: hit.plugin_id,
                        command: hit.command,
                        result: match told_error(response) {
                            Some(error) => Err(error),
                            None => Ok(response.result->0),
                        },
                    },
                ],
            ),
            PendingView::Call(CallView::Search { gen, plugin_id, command, query }) => responded(
                st,
                key,
                response,
            ) == (
                HostState { pending: st.pending.remove(response.id), ..st },
                seq![
                    EventView::SearchResult {
                        gen,
                        plugin_id,
                        command,
                        query,
                        result: match told_error(response) {
                            Some(error) => Err(error),
                            None => Ok(response.result->0),
                        },
                    },
                ],
            ),
            _ => true,
        },
{
}

/// A toast says of which plugin it is, and shows an error.
pub open spec fn is_error_toast(event: EventView, message: Seq<char>) -> bool {
    match event {
        EventView::Toast { params } => params.text_field("message"@) == Some(message)
            && params.text_field("kind"@) == Some("error"@),
        _ => false,
    }
}

proof fn lemma_failure(call: CallView, error: ErrorView)
    ensures
        match call {
            CallView::Item { plugin_id, item_id, .. } => is_error_toast(
                failure(call, error),
                plugin_id + " ("@ + item_id + "): "@ + error.message,
            ),
            CallView::Action { plugin_id, action_id, .. } => is_error_toast(
                failure(call, error),
                plugin_id + " ("@ + action_id + "): "@ + error.message,
            ),
            CallView::Submit { plugin_id, .. } => is_error_toast(
                failure(call, error),
                plugin_id + ": "@ + error.message,
            ),
            CallView::Command { gen, hit } => failure(call, error) == (EventView::CommandResult {
                gen,
                plugin_id: hit.plugin_id,
                command: hit.command,
                result: Err(error),
            }),
            CallView::Search { gen, plugin_id, command, query } => failure(call, error) == (
            EventView::SearchResult { gen, plugin_id, command, query, result: Err(error) }),
        },
{
    lemma_names();
    match failure(call, error) {
        EventView::Toast { params } => {
            lemma_find_at(params->Object_0, "message"@, 0);
            lemma_find_at(params->Object_0, "kind"@, 1);
        },
        _ => {},
    }
}

/// An item, an action or a form that went well tells nothing but the view that an
/// item leads to; one that failed is told in a toast with the plugin, the item or
/// action, and the message.
pub proof fn other_answers_are_told_in_toasts(
    st: HostState,
    key: Seq<char>,
    response: ResponseView,
)
    requires
        st.pending.contains_key(response.id),
        response.error is Some ==> response.error->0.code != -32002,
        st.pending[response.id] is Call,
    ensures
        ({
            let (next, events) = responded(st, key, response);
            let call = st.pending[response.id]->Call_0;
            &&& next == (HostState { pending: st.pending.remove(response.id), ..st })
            &&& match call {
                CallView::Item { plugin_id, command, item_id } => match response.error {
                    Some(error) => events.len() == 1 && is_error_toast(
                        events[0],
                        plugin_id + " ("@ + item_id + "): "@ + error.message,
                    ),
                    None => if response.result is Some && response.result->0.field("view"@) is Some {
                        events == seq![
                            EventView::ItemView {
                                plugin_id,
                                command,
                                item_id,
                                view: response.result->0.field("view"@)->0,
                            },
                        ]
                    } else {
                        events.len() == 0
                    },
                },
                CallView::Action { plugin_id, action_id, .. } => match response.error {
                    Some(error) => events.len() == 1 && is_error_toast(
                        events[0],
                        plugin_id + " ("@ + action_id + "): "@ + error.message,
                    ),
                    None => events.len() == 0,
                },
                CallView::Submit { plugin_id, .. } => match response.error {
                    Some(error) => events.len() == 1 && is_error_toast(
                        events[0],
                        plugin_id + ": "@ + error.message,
                    ),
                    None => events.len() == 0,
                },
                _ => true,
            }
        }),
{
    let call = st.pending[response.id]->Call_0;
    if let Some(error) = response.error {
        lemma_failure(call, error);
        assert(answer_events(call, response).len() == 1);
    }
}

/// The failure of a call that waited is told as that of one that was answered: by
/// its own event with the error, or in a toast.
pub proof fn failures_name_the_call(st: HostState, plugin_id: Seq<char>, error: ErrorView, n: int)
    requires
        st.queued.contains_key(plugin_id),
        0 <= n < st.queued[plugin_id].len(),
    ensures
        ({
            let events = crate::host::queue_failed(st, plugin_id, error).1;
            &&& events.len() == st.queued[plugin_id].len()
            &&& match st.queued[plugin_id][n] {
                CallView::Command { gen, hit } => events[n] == (EventView::CommandResult {
                    gen,
                    plugin_id: hit.plugin_id,
                    command: hit.command,
                    result: Err(error),
                }),
                CallView::Search { gen, plugin_id, command, query } => events[n] == (
                EventView::SearchResult { gen, plugin_id, command, query, result: Err(error) }),
                CallView::Item { plugin_id, item_id, .. } => is_error_toast(
                    events[n],
                    plugin_id + " ("@ + item_id + "): "@ + error.message,
                ),
                CallView::Action { plugin_id, action_id, .. } => is_error_toast(
                    events[n],
                    plugin_id + " ("@ + action_id + "): "@ + error.message,
                ),
                CallView::Submit { plugin_id, .. } => is_error_toast(
                    events[n],
                    plugin_id + ": "@ + error.message,
                ),
            }
        }),
{
    lemma_failure(st.queued[plugin_id][n], error);
}

/// A call that finds its isolate gone is not lost: the isolate is forgotten, the
/// call waits behind those that wait already, the plugin is loaded again, and
/// nothing is told. Only where the plugin is not installed any more the error is
/// told, and nothing is sent.
pub proof fn lost_isolates_are_loaded_again(
    st: HostState,
    key: Seq<char>,
    response: ResponseView,
)
    requires
        sound(st),
        st.next_id < u64::MAX,
        st.pending.contains_key(response.id),
        st.pending[response.id] is Call,
        response.error is Some,
        response.error->0.code == -32002,
        st.conns.contains_key(key),
    ensures
        ({
            let call = st.pending[response.id]->Call_0;
            let p = call.plugin();
            let (next, events) = responded(st, key, response);
            &&& !has_isolate(next, key, p)
            &&& next.loaded == st.loaded
            &&& !next.pending.contains_key(response.id)
            &&& forall|q: Seq<char>|
                q != p ==> (#[trigger] has_isolate(next, key, q) == has_isolate(st, key, q))
            &&& if st.loaded.contains_key(p) || st.loading.contains_key(p) {
                &&& events.len() == 0
                &&& next.queued.contains_key(p)
                &&& next.queued[p] == (if st.queued.contains_key(p) {
                    st.queued[p].push(call)
                } else {
                    seq![call]
                })
                &&& next.loading.contains_key(p)
                &&& if st.loading.contains_key(p) {
                    next.outbox == st.outbox
                } else {
                    &&& next.outbox.len() == st.outbox.len() + 1
                    &&& next.outbox.last().conn_key == key
                    &&& next.outbox.last().request.method == "plugin.load"@
                    &&& next.outbox.last().request.params == load_params(st.loaded[p])
                }
            } else {
                &&& next.outbox == st.outbox && next.queued == st.queued
                &&& events.len() == 1
                &&& match call {
                    CallView::Command { gen, hit } => events[0] == (EventView::CommandResult {
                        gen,
                        plugin_id: hit.plugin_id,
                        command: hit.command,
                        result: Err(response.error->0),
                    }),
                    CallView::Search { gen, plugin_id, command, query } => events[0] == (
                    EventView::SearchResult {
                        gen,
                        plugin_id,
                        command,
                        query,
                        result: Err(response.error->0),
                    }),
                    _ => events[0] is Toast,
                }
            }
        }),
{
    let call = st.pending[response.id]->Call_0;
    let p = call.plugin();
    lemma_failure(call, response.error->0);
    if !st.queued.contains_key(p) {
        assert(Seq::<CallView>::empty().push(call) =~= seq![call]);
    }
    let rest = HostState { pending: st.pending.remove(response.id), ..st };
    assert(responded(st, key, response) == gone_stale(rest, key, call, response.error->0));
    let next = responded(st, key, response).0;
    assert forall|q: Seq<char>| q != p implies (#[trigger] has_isolate(next, key, q)
        == has_isolate(st, key, q)) by {}
}

proof fn lemma_params_depend(a: HostState, b: HostState, isolate_id: u64, call: CallView)
    requires
        a.loaded == b.loaded,
        a.history == b.history,
    ensures
        call_params(a, isolate_id, call) == call_params(b, isolate_id, call),
{
}

proof fn lemma_sent_with_params(st: HostState, key: Seq<char>, calls: Seq<CallView>, n: int)
    requires
        0 <= n <= calls.len(),
        st.next_id + n <= u64::MAX,
        forall|i: int| 0 <= i < calls.len() ==> has_isolate(st, key, (#[trigger] calls[i]).plugin()),
    ensures
        ({
            let next = all_dispatched(st, key, calls, n);
            &&& next.next_id == st.next_id + n
            &&& next.conns == st.conns && next.loaded == st.loaded && next.history == st.history
            &&& next.queued == st.queued && next.loading == st.loading
            &&& next.outbox.len() == st.outbox.len() + n
            &&& forall|i: int|
                0 <= i < st.outbox.len() ==> #[trigger] next.outbox[i] == st.outbox[i]
            &&& forall|i: int|
                0 <= i < n ==> #[trigger] next.outbox[st.outbox.len() + i] == (OutgoingView {
                    conn_key: key,
                    request: RequestView {
                        jsonrpc: "2.0"@,
                        id: (st.next_id + i) as u64,
                        method: wire_name(calls[i]),
                        params: call_params(st, st.conns[key][calls[i].plugin()], calls[i]),
                    },
                })
        }),
    decreases n,
{
    if n > 0 {
        lemma_sent_with_params(st, key, calls, n - 1);
        let before = all_dispatched(st, key, calls, n - 1);
        let next = all_dispatched(st, key, calls, n);
        let call = calls[n - 1];
        assert(has_isolate(st, key, call.plugin()));
        assert(next == dispatched(before, key, call));
        lemma_params_depend(before, st, st.conns[key][call.plugin()], call);
        calls_carry_what_was_called(st, st.conns[key][call.plugin()], call);
        assert forall|i: int| 0 <= i < n implies #[trigger] next.outbox[st.outbox.len() + i] == (
        OutgoingView {
            conn_key: key,
            request: RequestView {
                jsonrpc: "2.0"@,
                id: (st.next_id + i) as u64,
                method: wire_name(calls[i]),
                params: call_params(st, st.conns[key][calls[i].plugin()], calls[i]),
            },
        }) by {
            if i < n - 1 {
                assert(next.outbox[st.outbox.len() + i] == before.outbox[st.outbox.len() + i]);
            }
        }
    }
}

/// Once a plugin is loaded, its isolate is known, every call that waited for it is
/// sent to that isolate in the order in which they came, with what each was called
/// with, and nothing is told.
pub proof fn loaded_plugin_gets_the_waiting_calls(
    st: HostState,
    key: Seq<char>,
    response: ResponseView,
    plugin_id: Seq<char>,
    isolate_id: u64,
)
    requires
        sound(st),
        st.conns.contains_key(key),
        st.pending.contains_key(response.id),
        st.pending[response.id] == (PendingView::Load { plugin_id }),
        response.result is Some,
        response.result->0.field("isolate_id"@) == Some(
            JsonView::Number(Number::Pos(isolate_id)),
        ),
        st.next_id + waiting(st, plugin_id).len() <= u64::MAX,
    ensures
        ({
            let calls = if st.queued.contains_key(plugin_id) {
                st.queued[plugin_id]
            } else {
                Seq::empty()
            };
            let (next, events) = responded(st, key, response);
            &&& events.len() == 0
            &&& next.conns == st.conns.insert(key, st.conns[key].insert(plugin_id, isolate_id))
            &&& next.loading == st.loading.remove(plugin_id)
            &&& next.queued == st.queued.remove(plugin_id)
            &&& next.outbox.len() == st.outbox.len() + calls.len()
            &&& forall|i: int|
                0 <= i < st.outbox.len() ==> #[trigger] next.outbox[i] == st.outbox[i]
            &&& forall|i: int|
                0 <= i < calls.len() ==> #[trigger] next.outbox[st.outbox.len() + i] == (
                OutgoingView {
                    conn_key: key,
                    request: RequestView {
                        jsonrpc: "2.0"@,
                        id: (st.next_id + i) as u64,
                        method: wire_name(calls[i]),
                        params: call_params(st, isolate_id, calls[i]),
                    },
                })
        }),
{
    let calls = waiting(st, plugin_id);
    let there = HostState {
        pending: st.pending.remove(response.id),
        loading: st.loading.remove(plugin_id),
        conns: st.conns.insert(key, st.conns[key].insert(plugin_id, isolate_id)),
        ..st
    };
    let start = HostState { queued: st.queued.remove(plugin_id), ..there };
    assert(responded(st, key, response).0 == flushed(there, key, plugin_id));
    assert forall|i: int| 0 <= i < calls.len() implies has_isolate(
        start,
        key,
        (#[trigger] calls[i]).plugin(),
    ) by {
        assert(st.queued[plugin_id][i].plugin() == plugin_id);
    }
    lemma_sent_with_params(start, key, calls, calls.len() as int);
    let next = responded(st, key, response).0;
    assert forall|i: int| 0 <= i < calls.len() implies #[trigger] next.outbox[st.outbox.len() + i]
        == (OutgoingView {
        conn_key: key,
        request: RequestView {
            jsonrpc: "2.0"@,
            id: (st.next_id + i) as u64,
            method: wire_name(calls[i]),
            params: call_params(st, isolate_id, calls[i]),
        },
    }) by {
        assert(st.queued[plugin_id][i].plugin() == plugin_id);
        lemma_params_depend(start, st, isolate_id, calls[i]);
        assert(start.outbox == st.outbox);
        assert(next.outbox[start.outbox.len() + i].conn_key == key);
    }
}

/// A plugin that could not be loaded has no isolate and is not being loaded any
/// more; with an error the calls that waited for it are told, without one they wait on.
pub proof fn failed_load_ends_the_loading(
    st: HostState,
    key: Seq<char>,
    response: ResponseView,
    plugin_id: Seq<char>,
)
    requires
        st.pending.contains_key(response.id),
        st.pending[response.id] == (PendingView::Load { plugin_id }),
        response.result is Some ==> response.result->0.unsigned_field("isolate_id"@) is None,
    ensures
        ({
            let (next, events) = responded(st, key, response);
            &&& next.conns == st.conns && next.outbox == st.outbox
            &&& next.loading == st.loading.remove(plugin_id)
            &&& next.pending == st.pending.remove(response.id)
            &&& match response.error {
                Some(error) => {
                    &&& next.queued == st.queued.remove(plugin_id)
                    &&& events.len() == waiting(st, plugin_id).len()
                },
                None => next.queued == st.queued && events.len() == 0,
            }
        }),
{
}

/// A process that dies is told once, by the plugin that had it for itself or as
/// the shared pool, and is to be started again after the delay for one more
/// attempt than there were.
pub proof fn crash_is_told_and_mended(st: HostState, key: Seq<char>, now: u128)
    requires
        st.conns.contains_key(key),
        st.restarts.contains_key(key) ==> st.restarts[key].attempts < u32::MAX,
        now + st.max_backoff <= u128::MAX,
    ensures
        ({
            let (next, events) = received(st, key, FrameView::Eof, now);
            let attempts: int = if st.restarts.contains_key(key) {
                st.restarts[key].attempts + 1
            } else {
                1
            };
            &&& events == seq![
                EventView::RuntimeCrashed {
                    plugin_id: if key.len() == 0 {
                        None
                    } else {
                        Some(key)
                    },
                },
            ]
            &&& next.conns == st.conns.remove(key)
            &&& next.restarts.contains_key(key)
            &&& next.restarts[key].attempts == attempts
            &&& next.restarts[key].next_attempt == now + backoff_delay(
                attempts,
                st.base_backoff as int,
                st.max_backoff as int,
            )
            &&& next.next_id == st.next_id && next.routes == st.routes
        }),
{
    if key.len() == 0 {
        assert(key =~= Seq::<char>::empty());
    }
    assert(received(st, key, FrameView::Eof, now) == crashed(st, key, now));
}

/// A restart that went well is told, and the connection is there again, with no
/// plugin loaded; one that did not is tried again later, after one more attempt.
pub proof fn restart_brings_the_connection_back(
    st: HostState,
    key: Seq<char>,
    started: bool,
    now: u128,
)
    requires
        st.restarts.contains_key(key),
        st.restarts[key].attempts < u32::MAX,
        now + st.max_backoff <= u128::MAX,
    ensures
        ({
            let (next, event) = restarted(st, key, started, now);
            let attempts = st.restarts[key].attempts + 1;
            if started {
                &&& event == Some(
                    EventView::RuntimeRestarted {
                        plugin_id: if key.len() == 0 {
                            None
                        } else {
                            Some(key)
                        },
                    },
                )
                &&& next.conns == st.conns.insert(key, Map::empty())
                &&& next.restarts == st.restarts.remove(key)
            } else {
                &&& event is None
                &&& next.conns == st.conns
                &&& next.restarts.contains_key(key)
                &&& next.restarts[key].attempts == attempts
                &&& next.restarts[key].next_attempt == now + backoff_delay(
                    attempts,
                    st.base_backoff as int,
                    st.max_backoff as int,
                )
            }
        }),
{
    if key.len() == 0 {
        assert(key =~= Seq::<char>::empty());
    }
}

/// A plugin's toast is told as it came; other notifications tell nothing; none
/// changes the host.
pub proof fn toasts_are_told_as_they_came(
    st: HostState,
    key: Seq<char>,
    n: NotificationView,
    now: u128,
)
    ensures
        n.method == "toast.show"@ ==> received(st, key, FrameView::Notification(n), now) == (
            st,
            seq![EventView::Toast { params: n.params }],
        ),
        n.method != "toast.show"@ ==> received(st, key, FrameView::Notification(n), now) == (
            st,
            Seq::<EventView>::empty(),
        ),
{
}

/// Whether a plugin lives in the process of a connection: in the shared pool the
/// installed plugins that share it, in any other connection the plugin it is named
/// after.
pub open spec fn lives_in(st: HostState, key: Seq<char>, plugin_id: Seq<char>) -> bool {
    if key.len() == 0 {
        st.loaded.contains_key(plugin_id) && st.loaded[plugin_id].manifest.isolation
            == Isolation::SharedPool
    } else {
        plugin_id == key
    }
}

/// With a process dies what was under way in it: what its plugins were to answer,
/// what waited for them, and their loading. Of all other plugins nothing changes.
pub proof fn crash_drops_what_was_under_way_there(st: HostState, key: Seq<char>, now: u128)
    requires
        st.conns.contains_key(key),
    ensures
        ({
            let next = received(st, key, FrameView::Eof, now).0;
            &&& forall|id: u64| #[trigger]
                next.pending.contains_key(id) == (st.pending.contains_key(id) && !lives_in(
                    st,
                    key,
                    st.pending[id].plugin(),
                ))
            &&& forall|id: u64| #[trigger]
                next.pending.contains_key(id) ==> next.pending[id] == st.pending[id]
            &&& forall|p: Seq<char>| #[trigger]
                next.queued.contains_key(p) == (st.queued.contains_key(p) && !lives_in(st, key, p))
            &&& forall|p: Seq<char>| #[trigger]
                next.queued.contains_key(p) ==> next.queued[p] == st.queued[p]
            &&& forall|p: Seq<char>| #[trigger]
                next.loading.contains_key(p) == (st.loading.contains_key(p) && !lives_in(
                    st,
                    key,
                    p,
                ))
            &&& next.loaded == st.loaded && next.history == st.history
        }),
{
    if key.len() == 0 {
        assert(key =~= Seq::<char>::empty());
    }
    assert(received(st, key, FrameView::Eof, now) == crashed(st, key, now));
}

/// A pending call is that of the plugin it was made to.
pub proof fn calls_are_of_their_plugin(call: CallView)
    ensures
        PendingView::Call(call).plugin() == call.plugin(),
        match call {
            CallView::Command { hit, .. } => call.plugin() == hit.plugin_id,
            CallView::Item { plugin_id, .. } => call.plugin() == plugin_id,
            CallView::Action { plugin_id, .. } => call.plugin() == plugin_id,
            CallView::Submit { plugin_id, .. } => call.plugin() == plugin_id,
            CallView::Search { plugin_id, .. } => call.plugin() == plugin_id,
        },
        (PendingView::Load { plugin_id: call.plugin() }).plugin() == call.plugin(),
{
}

/// Whether `metas[i]` is the last of the plugins with its id.
pub open spec fn is_last_of_id(metas: Seq<MetaView>, i: int) -> bool {
    &&& 0 <= i < metas.len()
    &&& forall|j: int|
        i < j < metas.len() ==> (#[trigger] metas[j]).manifest.id != metas[i].manifest.id
}

proof fn lemma_by_id(metas: Seq<MetaView>)
    ensures
        forall|i: int| #[trigger]
            is_last_of_id(metas, i) ==> metas_by_id(metas).contains_key(metas[i].manifest.id)
                && metas_by_id(metas)[metas[i].manifest.id] == metas[i],
        forall|p: Seq<char>| #[trigger]
            metas_by_id(metas).contains_key(p) ==> exists|i: int| #[trigger]
                is_last_of_id(metas, i) && metas[i].manifest.id == p,
    decreases metas.len(),
{
    if metas.len() > 0 {
        let rest = metas.drop_last();
        let n = metas.len() - 1;
        lemma_by_id(rest);
        assert forall|i: int| #[trigger] is_last_of_id(metas, i) implies metas_by_id(
            metas,
        ).contains_key(metas[i].manifest.id) && metas_by_id(metas)[metas[i].manifest.id]
            == metas[i] by {
            if i < n {
                assert(metas[n].manifest.id != metas[i].manifest.id);
                assert(is_last_of_id(rest, i)) by {
                    assert forall|j: int| i < j < rest.len() implies (
                    #[trigger] rest[j]).manifest.id != rest[i].manifest.id by {
                        assert(metas[j].manifest.id != metas[i].manifest.id);
                    }
                }
            }
        }
        assert forall|p: Seq<char>| #[trigger] metas_by_id(metas).contains_key(p) implies exists|
            i: int,
        | #[trigger] is_last_of_id(metas, i) && metas[i].manifest.id == p by {
            if p == metas[n].manifest.id {
                assert(is_last_of_id(metas, n));
            } else {
                assert(metas_by_id(rest).contains_key(p));
                let i = choose|i: int| #[trigger]
                    is_last_of_id(rest, i) && rest[i].manifest.id == p;
                assert(is_last_of_id(metas, i)) by {
                    assert forall|j: int| i < j < metas.len() implies (
                    #[trigger] metas[j]).manifest.id != metas[i].manifest.id by {
                        if j < n {
                            assert(rest[j].manifest.id != rest[i].manifest.id);
                        }
                    }
                }
            }
        }
    }
}

/// The plugins of a set are found by id, of two with the same id the later. A set
/// that is not the one installed, at the same isolation levels, is installed: the
/// installed plugins are then those of the set and no others, and nothing runs yet.
pub proof fn installing_replaces_the_plugins(st: HostState, metas: Seq<MetaView>)
    ensures
        ({
            let next = plugins_set(st, metas);
            if same_plugins(st, metas) {
                next == HostState { routes: next.routes, ..st }
            } else {
                &&& forall|i: int| #[trigger]
                    is_last_of_id(metas, i) ==> next.loaded.contains_key(metas[i].manifest.id)
                        && next.loaded[metas[i].manifest.id] == metas[i]
                &&& forall|p: Seq<char>| #[trigger]
                    next.loaded.contains_key(p) ==> exists|i: int| #[trigger]
                        is_last_of_id(metas, i) && metas[i].manifest.id == p
                &&& next.conns == Map::<Seq<char>, Map<Seq<char>, u64>>::empty()
                &&& next.pending == Map::<u64, PendingView>::empty()
                &&& next.queued == Map::<Seq<char>, Seq<CallView>>::empty()
                &&& next.loading == Map::<Seq<char>, u64>::empty()
                &&& next.outbox.len() == 0
                &&& next.history == st.history
                &&& next.next_id == st.next_id
            }
        }),
{
    lemma_by_id(metas);
}

/// A set of plugins is the one installed exactly where it has the same ids, each
/// at the same isolation level.
#[verifier::rlimit(40)]
pub proof fn same_set_means_same_ids_and_levels(st: HostState, metas: Seq<MetaView>)
    ensures
        same_plugins(st, metas) <==> {
            &&& forall|i: int| #[trigger]
                is_last_of_id(metas, i) ==> st.loaded.contains_key(metas[i].manifest.id)
                    && st.loaded[metas[i].manifest.id].manifest.isolation
                    == metas[i].manifest.isolation
            &&& forall|p: Seq<char>| #[trigger]
                st.loaded.contains_key(p) ==> exists|i: int| #[trigger]
                    is_last_of_id(metas, i) && metas[i].manifest.id == p
        },
{
    lemma_by_id(metas);
    let target = metas_by_id(metas);
    let a = isolations(target);
    let b = isolations(st.loaded);
    if same_plugins(st, metas) {
        assert forall|i: int| #[trigger] is_last_of_id(metas, i) implies st.loaded.contains_key(
            metas[i].manifest.id,
        ) && st.loaded[metas[i].manifest.id].manifest.isolation == metas[i].manifest.isolation by {
            let p = metas[i].manifest.id;
            assert(a.contains_key(p));
            assert(b.contains_key(p));
            assert(a[p] == b[p]);
        }
        assert forall|p: Seq<char>| #[trigger] st.loaded.contains_key(p) implies exists|i: int|
            #[trigger] is_last_of_id(metas, i) && metas[i].manifest.id == p by {
            assert(b.contains_key(p));
            assert(target.contains_key(p));
        }
    }
    if (forall|i: int| #[trigger]
        is_last_of_id(metas, i) ==> st.loaded.contains_key(metas[i].manifest.id)
            && st.loaded[metas[i].manifest.id].manifest.isolation == metas[i].manifest.isolation)
        && (forall|p: Seq<char>| #[trigger]
        st.loaded.contains_key(p) ==> exists|i: int| #[trigger]
            is_last_of_id(metas, i) && metas[i].manifest.id == p) {
        assert forall|p: Seq<char>| a.contains_key(p) == b.contains_key(p) && (a.contains_key(p)
            ==> #[trigger] a[p] == b[p]) by {
            if a.contains_key(p) {
                assert(target.contains_key(p));
                let i = choose|i: int| #[trigger]
                    is_last_of_id(metas, i) && metas[i].manifest.id == p;
                assert(is_last_of_id(metas, i));
            }
            if b.contains_key(p) {
                assert(st.loaded.contains_key(p));
                let i = choose|i: int| #[trigger]
                    is_last_of_id(metas, i) && metas[i].manifest.id == p;
                assert(is_last_of_id(metas, i));
            }
        }
        assert(a.dom() =~= b.dom()) by {
            assert forall|p: Seq<char>| a.dom().contains(p) == b.dom().contains(p) by {
                let _ = a[p];
            }
        }
        assert(a =~= b);
    }
}

/// Whether `metas[i]` has the process of the connection `key` for itself.
spec fn owns(metas: Seq<MetaView>, i: int, key: Seq<char>) -> bool {
    &&& 0 <= i < metas.len()
    &&& metas[i].manifest.isolation == Isolation::DedicatedProcess
    &&& metas[i].manifest.id == key
}

proof fn lemma_dedicated(metas: Seq<MetaView>)
    ensures
        forall|i: int, key: Seq<char>| #[trigger]
            owns(metas, i, key) ==> dedicated_ids(metas).contains(key),
        forall|key: Seq<char>| #[trigger]
            dedicated_ids(metas).contains(key) ==> exists|i: int| #[trigger] owns(metas, i, key),
    decreases metas.len(),
{
    if metas.len() > 0 {
        let rest = metas.drop_last();
        let n = metas.len() - 1;
        let a = dedicated_ids(rest);
        let b = dedicated_ids(metas);
        lemma_dedicated(rest);
        assert forall|i: int, key: Seq<char>| #[trigger] owns(metas, i, key) implies b.contains(
            key,
        ) by {
            if i < n {
                assert(owns(rest, i, key));
                let k = choose|k: int| 0 <= k < a.len() && a[k] == key;
                assert(b[k] == a[k]);
            } else {
                assert(b[b.len() - 1] == key);
            }
        }
        assert forall|key: Seq<char>| #[trigger] b.contains(key) implies exists|i: int|
            #[trigger] owns(metas, i, key) by {
            let k = choose|k: int| 0 <= k < b.len() && b[k] == key;
            if k < a.len() {
                assert(a[k] == key);
                assert(a.contains(key));
                let i = choose|i: int| owns(rest, i, key);
                assert(owns(metas, i, key));
            } else {
                assert(owns(metas, n, key));
            }
        }
    }
}

/// Every plugin of a set gets the connection over which it is called, and no
/// connection is started that no plugin needs; the shared pool comes first.
pub proof fn every_plugin_gets_its_connection(metas: Seq<MetaView>, i: int, k: int)
    ensures
        0 <= i < metas.len() ==> connections_for(metas).contains(
            if metas[i].manifest.isolation == Isolation::DedicatedProcess {
                metas[i].manifest.id
            } else {
                Seq::empty()
            },
        ),
        0 <= k < connections_for(metas).len() ==> exists|j: int|
            0 <= j < metas.len() && connections_for(metas)[k] == (if (
            #[trigger] metas[j]).manifest.isolation == Isolation::DedicatedProcess {
                metas[j].manifest.id
            } else {
                Seq::empty()
            }),
        (exists|j: int|
            0 <= j < metas.len() && (#[trigger] metas[j]).manifest.isolation
                == Isolation::SharedPool) ==> connections_for(metas)[0].len() == 0,
{
    lemma_dedicated(metas);
    let all = connections_for(metas);
    let own = dedicated_ids(metas);
    let offset = all.len() - own.len();
    if 0 <= i < metas.len() {
        if metas[i].manifest.isolation == Isolation::DedicatedProcess {
            assert(owns(metas, i, metas[i].manifest.id));
            let n = choose|n: int| 0 <= n < own.len() && own[n] == metas[i].manifest.id;
            assert(all[offset + n] == own[n]);
        } else {
            assert(metas[i].manifest.isolation == Isolation::SharedPool);
            assert(all[0] == Seq::<char>::empty());
        }
    }
    if 0 <= k < all.len() {
        if k < offset {
            let j = choose|j: int|
                0 <= j < metas.len() && (#[trigger] metas[j]).manifest.isolation
                    == Isolation::SharedPool;
            assert(metas[j].manifest.isolation == Isolation::SharedPool);
            assert(all[k] == Seq::<char>::empty());
        } else {
            assert(all[k] == own[k - offset]);
            let key = own[k - offset];
            assert(own.contains(key));
            let j = choose|j: int| owns(metas, j, key);
            assert(metas[j].manifest.id == all[k]);
        }
    }
}

/// A request that could not be sent is waited for no more, nor does its plugin count as
/// being loaded by it; all else stays.
pub proof fn unsent_requests_are_forgotten(st: HostState, id: u64)
    ensures
        !st.pending.contains_key(id) ==> unsent(st, id) == st,
        st.pending.contains_key(id) ==> unsent(st, id) == (HostState {
            pending: st.pending.remove(id),
            loading: match st.pending[id] {
                PendingView::Load { plugin_id } => st.loading.remove(plugin_id),
                PendingView::Call(_) => st.loading,
            },
            ..st
        }),
{
}

/// A host that was shut down has nothing left but its settings and the number of its next
/// request.
pub proof fn shut_down_host_has_nothing_left(st: HostState)
    ensures
        ({
            let next = shut_down(st);
            &&& next.routes.commands.len() == 0 && next.routes.prefixes.len() == 0
            &&& next.routes.regexes.len() == 0 && next.routes.dynamics.len() == 0
            &&& next.conns == Map::<Seq<char>, Map<Seq<char>, u64>>::empty()
            &&& next.pending == Map::<u64, PendingView>::empty()
            &&& next.restarts == Map::<Seq<char>, crate::host::RestartState>::empty()
            &&& next.loading == Map::<Seq<char>, u64>::empty()
            &&& next.queued == Map::<Seq<char>, Seq<CallView>>::empty()
            &&& next.loaded == Map::<Seq<char>, MetaView>::empty()
            &&& next.history.len() == 0 && next.outbox.len() == 0
            &&& next.next_id == st.next_id && next.runtime_bin == st.runtime_bin
            &&& next.base_backoff == st.base_backoff && next.max_backoff == st.max_backoff
        }),
{
}

} // verus!
