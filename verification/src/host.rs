//! The plugin host's decisions: which plugin is reached over which runtime
//! process, what is sent to it, what its answers mean, and when a process that
//! died is started again.
//!
//! The host starts no process and writes to none. It says what is to be sent
//! ([`PluginHost::take_outgoing`]), stopped and started; its owner does so, and
//! reports what came of it and what came back.

use vstd::prelude::*;

use crate::json::{field_views, object, put_field, text_value, Json, JsonView, Number};
use crate::manifest::{Isolation, MetaView, Permission, PluginMeta, manifest_json};
use crate::protocol::{
    clipboard_views, code, history_json, history_value, method, request, unsigned_json,
    ClipboardEntry, ClipboardView, ErrorView, Notification, NotificationView, Request, RequestView,
    Response, ResponseView, RpcError,
};
use crate::route::{
    empty_index, hit_views, query_hits, with_plugin, HitView, IndexView, RouteHit, RouteIndex,
    STATIC_DEADLINE_MS,
};
use crate::search::contains_text;
use crate::table::Table;
use crate::text::{opt_view, same, text3, text5, views};

verus! {

/// The delay before the first restart of a process that died, in nanoseconds.
pub const DEFAULT_BASE_BACKOFF: u128 = 500_000_000;

/// The longest delay before a restart, in nanoseconds.
pub const DEFAULT_MAX_BACKOFF: u128 = 30_000_000_000;

/// Host configuration.
#[derive(Debug)]
pub struct HostConfig {
    /// Path of the plugin runtime binary.
    pub runtime_bin: String,
    /// Delay before the first restart after a crash, in nanoseconds; doubled
    /// with each failed attempt.
    pub base_backoff: u128,
    /// Upper bound on the restart delay, in nanoseconds.
    pub max_backoff: u128,
}

impl Default for HostConfig {
    fn default() -> (r: Self)
        ensures
            r.runtime_bin@ == "steward-plugin-runtime"@,
            r.base_backoff == DEFAULT_BASE_BACKOFF,
            r.max_backoff == DEFAULT_MAX_BACKOFF,
    {
        HostConfig {
            runtime_bin: "steward-plugin-runtime".to_owned(),
            base_backoff: DEFAULT_BASE_BACKOFF,
            max_backoff: DEFAULT_MAX_BACKOFF,
        }
    }
}

/// Two to the power of `n`.
pub open spec fn power(n: nat) -> nat
    decreases n,
{
    if n == 0 {
        1
    } else {
        2 * power((n - 1) as nat)
    }
}

/// The delay before restart attempt `attempts`: the base delay, doubled with
/// each attempt after the first, and no more than `max`.
pub open spec fn backoff_delay(attempts: int, base: int, max: int) -> int {
    let doublings = if attempts <= 1 {
        0
    } else {
        attempts - 1
    };
    let delay = base * power(doublings as nat);
    if delay <= max {
        delay
    } else {
        max
    }
}

/// What is above the bound stays above it when it is doubled.
proof fn lemma_stays_above(base: int, max: int, i: nat, n: nat)
    requires
        0 <= base,
        0 <= max,
        i <= n,
        base * power(i) > max,
    ensures
        base * power(n) > max,
    decreases n,
{
    if i < n {
        let m = (n - 1) as nat;
        lemma_stays_above(base, max, i, m);
        assert(base * power(n) == 2 * (base * power(m))) by (nonlinear_arith)
            requires
                power(n) == 2 * power(m),
        ;
    }
}

/// Exponential backoff: `base * 2^(attempts - 1)`, capped at `max`.
pub fn backoff(attempts: u32, base: u128, max: u128) -> (r: u128)
    ensures
        r == backoff_delay(attempts as int, base as int, max as int),
{
    let doublings: u32 = if attempts == 0 {
        0
    } else {
        attempts - 1
    };
    if base == 0 {
        assert(base * power(doublings as nat) == 0) by (nonlinear_arith)
            requires
                base == 0,
        ;
        return 0;
    }
    let mut delay: u128 = base;
    let mut i: u32 = 0;
    assert(base * power(0) == base) by (nonlinear_arith)
        requires
            power(0) == 1,
    ;
    while i < doublings && delay <= max
        invariant
            i <= doublings,
            doublings == (if attempts == 0 {
                0
            } else {
                attempts - 1
            }),
            delay == base * power(i as nat),
        decreases doublings - i,
    {
        assert(base * power((i + 1) as nat) == 2 * (base * power(i as nat))) by (nonlinear_arith)
            requires
                power((i + 1) as nat) == 2 * power(i as nat),
        ;
        if delay > max / 2 {
            assert(base * power((i + 1) as nat) > max);
            proof {
                lemma_stays_above(base as int, max as int, (i + 1) as nat, doublings as nat);
            }
            return max;
        }
        delay = delay * 2;
        i += 1;
    }
    if delay > max {
        proof {
            lemma_stays_above(base as int, max as int, i as nat, doublings as nat);
        }
        max
    } else {
        delay
    }
}

/// A call that a plugin is to answer.
#[allow(inconsistent_fields)]
#[derive(Debug)]
pub enum QueuedCall {
    Command { gen: u64, hit: RouteHit },
    Item { plugin_id: String, command: String, item_id: String },
    Action { plugin_id: String, action_id: String, item_id: Option<String> },
    Submit { plugin_id: String, values: Json },
    Search { gen: u64, plugin_id: String, command: String, query: String },
}

/// What a [`QueuedCall`] is.
#[allow(inconsistent_fields)]
pub enum CallView {
    Command { gen: u64, hit: HitView },
    Item { plugin_id: Seq<char>, command: Seq<char>, item_id: Seq<char> },
    Action { plugin_id: Seq<char>, action_id: Seq<char>, item_id: Option<Seq<char>> },
    Submit { plugin_id: Seq<char>, values: JsonView },
    Search { gen: u64, plugin_id: Seq<char>, command: Seq<char>, query: Seq<char> },
}

impl View for QueuedCall {
    type V = CallView;

    open spec fn view(&self) -> CallView {
        match *self {
            QueuedCall::Command { gen, hit } => CallView::Command { gen, hit: hit@ },
            QueuedCall::Item { plugin_id, command, item_id } => CallView::Item {
                plugin_id: plugin_id@,
                command: command@,
                item_id: item_id@,
            },
            QueuedCall::Action { plugin_id, action_id, item_id } => CallView::Action {
                plugin_id: plugin_id@,
                action_id: action_id@,
                item_id: opt_view(item_id),
            },
            QueuedCall::Submit { plugin_id, values } => CallView::Submit {
                plugin_id: plugin_id@,
                values: values@,
            },
            QueuedCall::Search { gen, plugin_id, command, query } => CallView::Search {
                gen,
                plugin_id: plugin_id@,
                command: command@,
                query: query@,
            },
        }
    }
}

impl CallView {
    /// The plugin that is called.
    pub open spec fn plugin(self) -> Seq<char> {
        match self {
            CallView::Command { hit, .. } => hit.plugin_id,
            CallView::Item { plugin_id, .. } => plugin_id,
            CallView::Action { plugin_id, .. } => plugin_id,
            CallView::Submit { plugin_id, .. } => plugin_id,
            CallView::Search { plugin_id, .. } => plugin_id,
        }
    }

    /// The method by which the call is sent.
    pub open spec fn method(self) -> Seq<char> {
        match self {
            CallView::Command { .. } => method::COMMAND_INVOKE@,
            CallView::Item { .. } => method::ITEM_INVOKE@,
            CallView::Action { .. } => method::ACTION_INVOKE@,
            CallView::Submit { .. } => method::FORM_SUBMIT@,
            CallView::Search { .. } => method::SEARCH_QUERY@,
        }
    }
}

impl QueuedCall {
    /// The plugin that is called.
    fn plugin(&self) -> (r: String)
        ensures
            r@ == self@.plugin(),
    {
        match self {
            QueuedCall::Command { hit, .. } => hit.plugin_id.clone(),
            QueuedCall::Item { plugin_id, .. } => plugin_id.clone(),
            QueuedCall::Action { plugin_id, .. } => plugin_id.clone(),
            QueuedCall::Submit { plugin_id, .. } => plugin_id.clone(),
            QueuedCall::Search { plugin_id, .. } => plugin_id.clone(),
        }
    }
}

/// The calls that wait for a plugin to be loaded, first come first.
pub struct CallQueue {
    calls: Vec<QueuedCall>,
}

/// The views of a list of calls.
pub open spec fn call_views(v: Seq<QueuedCall>) -> Seq<CallView> {
    v.map_values(|c: QueuedCall| c@)
}

impl View for CallQueue {
    type V = Seq<CallView>;

    closed spec fn view(&self) -> Seq<CallView> {
        call_views(self.calls@)
    }
}

/// What a request that was sent waits for.
#[derive(Debug)]
pub enum Pending {
    /// A plugin that is being loaded.
    Load { plugin_id: String },
    /// The answer to a call.
    Call(QueuedCall),
}

/// What a [`Pending`] is.
pub enum PendingView {
    Load { plugin_id: Seq<char> },
    Call(CallView),
}

impl View for Pending {
    type V = PendingView;

    open spec fn view(&self) -> PendingView {
        match *self {
            Pending::Load { plugin_id } => PendingView::Load { plugin_id: plugin_id@ },
            Pending::Call(call) => PendingView::Call(call@),
        }
    }
}

impl PendingView {
    /// The plugin that is to answer.
    pub open spec fn plugin(self) -> Seq<char> {
        match self {
            PendingView::Load { plugin_id } => plugin_id,
            PendingView::Call(call) => call.plugin(),
        }
    }
}

/// When a process that died is started again.
#[derive(Debug, Clone, Copy, PartialEq, Eq, Structural)]
pub struct RestartState {
    /// The number of the next attempt.
    pub attempts: u32,
    /// The time of the next attempt, in nanoseconds.
    pub next_attempt: u128,
}

impl View for RestartState {
    type V = RestartState;

    open spec fn view(&self) -> RestartState {
        *self
    }
}

/// What the host tells the launcher.
#[allow(inconsistent_fields)]
#[derive(Debug)]
pub enum HostEvent {
    /// A plugin command produced a view, or failed. `gen` is the query
    /// generation that sent the request.
    CommandResult { gen: u64, plugin_id: String, command: String, result: Result<Json, RpcError> },
    /// The results of a search view for a query.
    SearchResult {
        gen: u64,
        plugin_id: String,
        command: String,
        query: String,
        result: Result<Json, RpcError>,
    },
    /// A toast is to be shown (`{ message, kind?, durationMs? }`).
    Toast { params: Json },
    /// Selecting a list item returned a view.
    ItemView { plugin_id: String, command: String, item_id: String, view: Json },
    /// A runtime process died; `None` is the shared pool.
    RuntimeCrashed { plugin_id: Option<String> },
    /// A runtime process that died was started again; `None` is the shared pool.
    RuntimeRestarted { plugin_id: Option<String> },
}

/// What a [`HostEvent`] is.
#[allow(inconsistent_fields)]
pub enum EventView {
    CommandResult {
        gen: u64,
        plugin_id: Seq<char>,
        command: Seq<char>,
        result: Result<JsonView, ErrorView>,
    },
    SearchResult {
        gen: u64,
        plugin_id: Seq<char>,
        command: Seq<char>,
        query: Seq<char>,
        result: Result<JsonView, ErrorView>,
    },
    Toast { params: JsonView },
    ItemView { plugin_id: Seq<char>, command: Seq<char>, item_id: Seq<char>, view: JsonView },
    RuntimeCrashed { plugin_id: Option<Seq<char>> },
    RuntimeRestarted { plugin_id: Option<Seq<char>> },
}

/// The view of a result.
pub open spec fn result_view(r: Result<Json, RpcError>) -> Result<JsonView, ErrorView> {
    match r {
        Ok(j) => Ok(j@),
        Err(e) => Err(e@),
    }
}

impl View for HostEvent {
    type V = EventView;

    open spec fn view(&self) -> EventView {
        match *self {
            HostEvent::CommandResult { gen, plugin_id, command, result } => EventView::CommandResult {
                gen,
                plugin_id: plugin_id@,
                command: command@,
                result: result_view(result),
            },
            HostEvent::SearchResult { gen, plugin_id, command, query, result } =>
            EventView::SearchResult {
                gen,
                plugin_id: plugin_id@,
                command: command@,
                query: query@,
                result: result_view(result),
            },
            HostEvent::Toast { params } => EventView::Toast { params: params@ },
            HostEvent::ItemView { plugin_id, command, item_id, view } => EventView::ItemView {
                plugin_id: plugin_id@,
                command: command@,
                item_id: item_id@,
                view: view@,
            },
            HostEvent::RuntimeCrashed { plugin_id } => EventView::RuntimeCrashed {
                plugin_id: opt_view(plugin_id),
            },
            HostEvent::RuntimeRestarted { plugin_id } => EventView::RuntimeRestarted {
                plugin_id: opt_view(plugin_id),
            },
        }
    }
}

/// The views of a list of events.
pub open spec fn event_views(v: Seq<HostEvent>) -> Seq<EventView> {
    v.map_values(|e: HostEvent| e@)
}

/// A request that is to be written to the process of a connection.
#[derive(Debug)]
pub struct Outgoing {
    pub conn_key: String,
    pub request: Request,
}

/// What an [`Outgoing`] is.
pub struct OutgoingView {
    pub conn_key: Seq<char>,
    pub request: RequestView,
}

impl View for Outgoing {
    type V = OutgoingView;

    open spec fn view(&self) -> OutgoingView {
        OutgoingView { conn_key: self.conn_key@, request: self.request@ }
    }
}

/// The views of a list of outgoing requests.
pub open spec fn outgoing_views(v: Seq<Outgoing>) -> Seq<OutgoingView> {
    v.map_values(|o: Outgoing| o@)
}

/// The plugin host.
pub struct PluginHost {
    config: HostConfig,
    routes: RouteIndex,
    conns: Table<String, Table<String, u64>>,
    next_request_id: u64,
    pending: Table<u64, Pending>,
    restarts: Table<String, RestartState>,
    loading_plugins: Table<String, u64>,
    queued: Table<String, CallQueue>,
    loaded: Table<String, PluginMeta>,
    clipboard_history: Vec<ClipboardEntry>,
    outbox: Vec<Outgoing>,
}

/// What a [`PluginHost`] knows. A connection is keyed by the id of the plugin
/// that has the process for itself; the key of the shared pool is empty.
pub struct HostState {
    pub runtime_bin: Seq<char>,
    pub base_backoff: u128,
    pub max_backoff: u128,
    pub routes: IndexView,
    /// The live connections: which plugins are loaded there, and their isolates.
    pub conns: Map<Seq<char>, Map<Seq<char>, u64>>,
    /// The id of the next request.
    pub next_id: u64,
    /// What the requests that were sent wait for.
    pub pending: Map<u64, PendingView>,
    /// When connections that died are started again.
    pub restarts: Map<Seq<char>, RestartState>,
    /// The plugins that are being loaded, with the ids of the requests.
    pub loading: Map<Seq<char>, u64>,
    /// The calls that wait for their plugin to be loaded.
    pub queued: Map<Seq<char>, Seq<CallView>>,
    /// The installed plugins.
    pub loaded: Map<Seq<char>, MetaView>,
    /// The clipboard history.
    pub history: Seq<ClipboardView>,
    /// What is to be sent.
    pub outbox: Seq<OutgoingView>,
}

impl View for PluginHost {
    type V = HostState;

    closed spec fn view(&self) -> HostState {
        HostState {
            runtime_bin: self.config.runtime_bin@,
            base_backoff: self.config.base_backoff,
            max_backoff: self.config.max_backoff,
            routes: self.routes@,
            conns: self.conns@,
            next_id: self.next_request_id,
            pending: self.pending@,
            restarts: self.restarts@,
            loading: self.loading_plugins@,
            queued: self.queued@,
            loaded: self.loaded@,
            history: clipboard_views(self.clipboard_history@),
            outbox: outgoing_views(self.outbox@),
        }
    }
}

/// The key of the shared pool.
pub open spec fn shared_pool() -> Seq<char> {
    Seq::empty()
}

/// The key of the connection over which a plugin is reached.
pub open spec fn conn_key(st: HostState, plugin_id: Seq<char>) -> Seq<char> {
    if st.loaded.contains_key(plugin_id) && st.loaded[plugin_id].manifest.isolation
        == Isolation::DedicatedProcess {
        plugin_id
    } else {
        shared_pool()
    }
}

/// Whether a plugin has an isolate in a connection.
pub open spec fn has_isolate(st: HostState, key: Seq<char>, plugin_id: Seq<char>) -> bool {
    st.conns.contains_key(key) && st.conns[key].contains_key(plugin_id)
}

/// Whether a plugin may read the clipboard history.
pub open spec fn may_read_history(st: HostState, plugin_id: Seq<char>) -> bool {
    st.loaded.contains_key(plugin_id) && st.loaded[plugin_id].manifest.permissions.contains(
        Permission::ClipboardHistory,
    )
}

/// The parameters with which a call is sent.
pub open spec fn call_params(st: HostState, isolate_id: u64, call: CallView) -> JsonView {
    match call {
        CallView::Command { hit, .. } => JsonView::Object(
            seq![
                ("isolate_id"@, unsigned_json(isolate_id)),
                ("command"@, JsonView::Str(hit.command)),
                ("input"@, JsonView::Str(hit.input)),
                ("deadline_ms"@, unsigned_json(hit.deadline_ms)),
            ] + (if may_read_history(st, hit.plugin_id) {
                seq![("clipboard_history"@, history_json(st.history))]
            } else {
                seq![]
            }),
        ),
        CallView::Item { item_id, .. } => JsonView::Object(
            seq![
                ("isolate_id"@, unsigned_json(isolate_id)),
                ("item_id"@, JsonView::Str(item_id)),
                ("deadline_ms"@, unsigned_json(STATIC_DEADLINE_MS)),
            ],
        ),
        CallView::Action { action_id, item_id, .. } => JsonView::Object(
            seq![
                ("isolate_id"@, unsigned_json(isolate_id)),
                ("action_id"@, JsonView::Str(action_id)),
                ("deadline_ms"@, unsigned_json(STATIC_DEADLINE_MS)),
            ] + (match item_id {
                Some(id) => seq![("item_id"@, JsonView::Str(id))],
                None => seq![],
            }),
        ),
        CallView::Submit { values, .. } => JsonView::Object(
            seq![
                ("isolate_id"@, unsigned_json(isolate_id)),
                ("values"@, values),
                ("deadline_ms"@, unsigned_json(STATIC_DEADLINE_MS)),
            ],
        ),
        CallView::Search { query, .. } => JsonView::Object(
            seq![
                ("isolate_id"@, unsigned_json(isolate_id)),
                ("query"@, JsonView::Str(query)),
                ("deadline_ms"@, unsigned_json(STATIC_DEADLINE_MS)),
            ],
        ),
    }
}

/// The state after a call was sent to the plugin's isolate, where it has one.
pub open spec fn dispatched(st: HostState, key: Seq<char>, call: CallView) -> HostState {
    if has_isolate(st, key, call.plugin()) {
        let params = call_params(st, st.conns[key][call.plugin()], call);
        HostState {
            next_id: (st.next_id + 1) as u64,
            pending: st.pending.insert(st.next_id, PendingView::Call(call)),
            outbox: st.outbox.push(
                OutgoingView { conn_key: key, request: request(st.next_id, call.method(), params) },
            ),
            ..st
        }
    } else {
        st
    }
}

/// The parameters with which a plugin is loaded.
pub open spec fn load_params(meta: MetaView) -> JsonView {
    JsonView::Object(
        seq![
            ("id"@, JsonView::Str(meta.manifest.id)),
            ("entry_path"@, JsonView::Str(meta.entry)),
            ("manifest"@, manifest_json(meta.manifest)),
        ],
    )
}

/// The state after a request to load a plugin was sent over a live connection.
/// The request takes an id even where there is no such connection.
pub open spec fn load_sent(st: HostState, key: Seq<char>, meta: MetaView) -> HostState {
    let id = st.next_id;
    let next = HostState { next_id: (st.next_id + 1) as u64, ..st };
    if st.conns.contains_key(key) {
        HostState {
            loading: st.loading.insert(meta.manifest.id, id),
            pending: st.pending.insert(id, PendingView::Load { plugin_id: meta.manifest.id }),
            outbox: st.outbox.push(
                OutgoingView {
                    conn_key: key,
                    request: request(id, method::PLUGIN_LOAD@, load_params(meta)),
                },
            ),
            ..next
        }
    } else {
        next
    }
}

/// The state after a plugin was made to load, unless it is loaded, is being
/// loaded or is not installed.
pub open spec fn load_ensured(st: HostState, key: Seq<char>, plugin_id: Seq<char>) -> HostState {
    if st.loading.contains_key(plugin_id) || has_isolate(st, key, plugin_id)
        || !st.loaded.contains_key(plugin_id) {
        st
    } else {
        load_sent(st, key, st.loaded[plugin_id])
    }
}

/// The calls that wait for a plugin.
pub open spec fn waiting(st: HostState, plugin_id: Seq<char>) -> Seq<CallView> {
    if st.queued.contains_key(plugin_id) {
        st.queued[plugin_id]
    } else {
        Seq::empty()
    }
}

/// The state after a call was made to wait for its plugin.
pub open spec fn enqueued(st: HostState, call: CallView) -> HostState {
    HostState {
        queued: st.queued.insert(call.plugin(), waiting(st, call.plugin()).push(call)),
        ..st
    }
}

/// What becomes of a call: the state after it, and the id of the request. A
/// call whose plugin has no isolate yet waits until it has, which is answered
/// by 0. `None` where the connection is missing or the plugin is not installed.
pub open spec fn called(st: HostState, call: CallView) -> (HostState, Option<u64>) {
    let key = conn_key(st, call.plugin());
    if !st.conns.contains_key(key) {
        (st, None)
    } else if has_isolate(st, key, call.plugin()) {
        (dispatched(st, key, call), Some(st.next_id))
    } else if !st.loaded.contains_key(call.plugin()) {
        (st, None)
    } else {
        (load_ensured(enqueued(st, call), key, call.plugin()), Some(0))
    }
}

/// The state after the first `n` of the calls were sent.
pub open spec fn all_dispatched(
    st: HostState,
    key: Seq<char>,
    calls: Seq<CallView>,
    n: int,
) -> HostState
    decreases n,
{
    if n <= 0 {
        st
    } else {
        dispatched(all_dispatched(st, key, calls, n - 1), key, calls[n - 1])
    }
}

/// The state after the calls that waited for a plugin were sent.
pub open spec fn flushed(st: HostState, key: Seq<char>, plugin_id: Seq<char>) -> HostState {
    let calls = waiting(st, plugin_id);
    all_dispatched(
        HostState { queued: st.queued.remove(plugin_id), ..st },
        key,
        calls,
        calls.len() as int,
    )
}

/// A toast that reports an error.
pub open spec fn error_toast(message: Seq<char>) -> EventView {
    EventView::Toast {
        params: JsonView::Object(
            seq![("message"@, JsonView::Str(message)), ("kind"@, JsonView::Str("error"@))],
        ),
    }
}

/// How the failure of a call is told.
pub open spec fn failure(call: CallView, error: ErrorView) -> EventView {
    match call {
        CallView::Command { gen, hit } => EventView::CommandResult {
            gen,
            plugin_id: hit.plugin_id,
            command: hit.command,
            result: Err(error),
        },
        CallView::Item { plugin_id, item_id, .. } => error_toast(
            plugin_id + " ("@ + item_id + "): "@ + error.message,
        ),
        CallView::Action { plugin_id, action_id, .. } => error_toast(
            plugin_id + " ("@ + action_id + "): "@ + error.message,
        ),
        CallView::Submit { plugin_id, .. } => error_toast(plugin_id + ": "@ + error.message),
        CallView::Search { gen, plugin_id, command, query } => EventView::SearchResult {
            gen,
            plugin_id,
            command,
            query,
            result: Err(error),
        },
    }
}

/// The state and the events after a call found its isolate gone: the plugin is
/// loaded again and the call waits for it. Where the plugin is not installed any
/// more, the error is told.
pub open spec fn gone_stale(st: HostState, key: Seq<char>, call: CallView, error: ErrorView) -> (
    HostState,
    Seq<EventView>,
) {
    let plugin_id = call.plugin();
    let st = if st.conns.contains_key(key) {
        HostState { conns: st.conns.insert(key, st.conns[key].remove(plugin_id)), ..st }
    } else {
        st
    };
    if st.loading.contains_key(plugin_id) {
        (enqueued(st, call), Seq::empty())
    } else if !st.loaded.contains_key(plugin_id) {
        (st, seq![failure(call, error)])
    } else {
        (enqueued(load_ensured(st, key, plugin_id), call), Seq::empty())
    }
}

/// The state and the events after the loading of a plugin failed.
pub open spec fn queue_failed(st: HostState, plugin_id: Seq<char>, error: ErrorView) -> (
    HostState,
    Seq<EventView>,
) {
    (
        HostState { queued: st.queued.remove(plugin_id), ..st },
        waiting(st, plugin_id).map_values(|c: CallView| failure(c, error)),
    )
}

/// The outcome that a response reports.
pub open spec fn outcome(response: ResponseView) -> Result<JsonView, ErrorView> {
    match (response.result, response.error) {
        (_, Some(error)) => Err(error),
        (Some(result), None) => Ok(result),
        (None, None) => Err(ErrorView { code: code::INTERNAL_ERROR, message: "empty response"@ }),
    }
}

/// The events with which the answer to a call is told.
pub open spec fn answer_events(call: CallView, response: ResponseView) -> Seq<EventView> {
    match call {
        CallView::Command { gen, hit } => seq![
            EventView::CommandResult {
                gen,
                plugin_id: hit.plugin_id,
                command: hit.command,
                result: outcome(response),
            },
        ],
        CallView::Search { gen, plugin_id, command, query } => seq![
            EventView::SearchResult { gen, plugin_id, command, query, result: outcome(response) },
        ],
        CallView::Item { plugin_id, command, item_id } => match response.error {
            Some(error) => seq![failure(call, error)],
            None => match response.result {
                Some(result) => match result.field("view"@) {
                    Some(view) => seq![EventView::ItemView { plugin_id, command, item_id, view }],
                    None => Seq::empty(),
                },
                None => Seq::empty(),
            },
        },
        CallView::Action { .. } | CallView::Submit { .. } => match response.error {
            Some(error) => seq![failure(call, error)],
            None => Seq::empty(),
        },
    }
}

/// The isolate that a response to a load reports.
pub open spec fn loaded_isolate(response: ResponseView) -> Option<u64> {
    match response.result {
        Some(result) => result.unsigned_field("isolate_id"@),
        None => None,
    }
}

/// The state and the events after a response came over a connection. A response
/// that no request waits for changes nothing.
pub open spec fn responded(st: HostState, key: Seq<char>, response: ResponseView) -> (
    HostState,
    Seq<EventView>,
) {
    if !st.pending.contains_key(response.id) {
        (st, Seq::empty())
    } else {
        let rest = HostState { pending: st.pending.remove(response.id), ..st };
        match st.pending[response.id] {
            PendingView::Load { plugin_id } => {
                let rest = HostState { loading: st.loading.remove(plugin_id), ..rest };
                match loaded_isolate(response) {
                    Some(isolate_id) => {
                        let there = if st.conns.contains_key(key) {
                            HostState {
                                conns: st.conns.insert(
                                    key,
                                    st.conns[key].insert(plugin_id, isolate_id),
                                ),
                                ..rest
                            }
                        } else {
                            rest
                        };
                        (flushed(there, key, plugin_id), Seq::empty())
                    },
                    None => match response.error {
                        Some(error) => queue_failed(rest, plugin_id, error),
                        None => (rest, Seq::empty()),
                    },
                }
            },
            PendingView::Call(call) => if response.error is Some && response.error->0.code
                == code::PLUGIN_NOT_FOUND {
                gone_stale(rest, key, call, response.error->0)
            } else {
                (rest, answer_events(call, response))
            },
        }
    }
}

/// Whether enough request ids are left to send every call that waits for one plugin.
pub open spec fn ids_left(st: HostState) -> bool {
    &&& st.next_id < u64::MAX
    &&& forall|p: Seq<char>|
        #[trigger] st.queued.contains_key(p) ==> st.next_id + st.queued[p].len() < u64::MAX
}

/// Appends an event.
fn push_event(events: &mut Vec<HostEvent>, event: HostEvent)
    ensures
        event_views(final(events)@) == event_views(old(events)@).push(event@),
{
    events.push(event);
    assert(event_views(events@) =~= event_views(old(events)@).push(event@));
}

/// A toast that reports an error.
fn toast(message: String) -> (r: HostEvent)
    ensures
        r@ == error_toast(message@),
{
    let mut fields: Vec<(String, Json)> = Vec::new();
    put_field(&mut fields, "message", Json::Str(message));
    put_field(&mut fields, "kind", text_value("error"));
    assert(field_views(fields@) =~= error_toast(message@)->params->Object_0);
    HostEvent::Toast { params: object(fields) }
}

/// How the failure of a call is told.
fn failure_event(call: QueuedCall, error: &RpcError) -> (r: HostEvent)
    ensures
        r@ == failure(call@, error@),
{
    match call {
        QueuedCall::Command { gen, hit } => HostEvent::CommandResult {
            gen,
            plugin_id: hit.plugin_id,
            command: hit.command,
            result: Err(error.clone()),
        },
        QueuedCall::Item { plugin_id, item_id, .. } => toast(
            text5(plugin_id.as_str(), " (", item_id.as_str(), "): ", error.message.as_str()),
        ),
        QueuedCall::Action { plugin_id, action_id, .. } => toast(
            text5(plugin_id.as_str(), " (", action_id.as_str(), "): ", error.message.as_str()),
        ),
        QueuedCall::Submit { plugin_id, .. } => toast(
            text3(plugin_id.as_str(), ": ", error.message.as_str()),
        ),
        QueuedCall::Search { gen, plugin_id, command, query } => HostEvent::SearchResult {
            gen,
            plugin_id,
            command,
            query,
            result: Err(error.clone()),
        },
    }
}

/// The outcome that a response reports.
fn outcome_of(response: Response) -> (r: Result<Json, RpcError>)
    ensures
        result_view(r) == outcome(response@),
{
    match response.error {
        Some(error) => Err(error),
        None => match response.result {
            Some(result) => Ok(result),
            None => Err(RpcError::new(code::INTERNAL_ERROR, "empty response")),
        },
    }
}

/// Tells the answer to a call.
fn push_answer(call: QueuedCall, response: Response, events: &mut Vec<HostEvent>)
    ensures
        event_views(final(events)@) == event_views(old(events)@) + answer_events(call@, response@),
{
    let ghost before = event_views(events@);
    let ghost told = answer_events(call@, response@);
    match call {
        QueuedCall::Command { gen, hit } => {
            push_event(
                events,
                HostEvent::CommandResult {
                    gen,
                    plugin_id: hit.plugin_id,
                    command: hit.command,
                    result: outcome_of(response),
                },
            );
        },
        QueuedCall::Search { gen, plugin_id, command, query } => {
            push_event(
                events,
                HostEvent::SearchResult {
                    gen,
                    plugin_id,
                    command,
                    query,
                    result: outcome_of(response),
                },
            );
        },
        QueuedCall::Item { plugin_id, command, item_id } => {
            if let Some(error) = &response.error {
                push_event(
                    events,
                    failure_event(QueuedCall::Item { plugin_id, command, item_id }, error),
                );
            } else if let Some(result) = &response.result {
                if let Some(view) = result.get("view") {
                    push_event(
                        events,
                        HostEvent::ItemView { plugin_id, command, item_id, view: view.clone() },
                    );
                }
            }
        },
        QueuedCall::Action { plugin_id, action_id, item_id } => {
            if let Some(error) = &response.error {
                push_event(
                    events,
                    failure_event(QueuedCall::Action { plugin_id, action_id, item_id }, error),
                );
            }
        },
        QueuedCall::Submit { plugin_id, values } => {
            if let Some(error) = &response.error {
                push_event(
                    events,
                    failure_event(QueuedCall::Submit { plugin_id, values }, error),
                );
            }
        },
    }
    assert(event_views(events@) =~= before + told);
}

/// Whether a permission is among those granted.
fn grants(permissions: &Vec<Permission>, permission: Permission) -> (r: bool)
    ensures
        r == permissions@.contains(permission),
{
    let mut i: usize = 0;
    while i < permissions.len()
        invariant
            i <= permissions.len(),
            forall|j: int| 0 <= j < i ==> #[trigger] permissions@[j] != permission,
        decreases permissions.len() - i,
    {
        if permissions[i] == permission {
            return true;
        }
        i += 1;
    }
    false
}

/// Takes the first of the calls that are left.
fn next_call(calls: &mut Vec<QueuedCall>) -> (r: QueuedCall)
    requires
        old(calls)@.len() > 0,
    ensures
        r@ == call_views(old(calls)@)[0],
        call_views(final(calls)@) == call_views(old(calls)@).drop_first(),
        final(calls)@.len() == old(calls)@.len() - 1,
{
    let call = calls.remove(0);
    assert(call_views(calls@) =~= call_views(old(calls)@).drop_first());
    call
}

impl PluginHost {
    /// The key of the connection over which a plugin is reached.
    fn conn_key_for(&self, plugin_id: &String) -> (r: String)
        ensures
            r@ == conn_key(self@, plugin_id@),
    {
        if let Some(meta) = self.loaded.get(plugin_id) {
            if meta.manifest.isolation == Isolation::DedicatedProcess {
                return plugin_id.clone();
            }
        }
        let r = String::new();
        assert(r@ =~= shared_pool());
        r
    }

    /// The isolate of a plugin in a connection.
    fn isolate_of(&self, key: &String, plugin_id: &String) -> (r: Option<u64>)
        ensures
            match r {
                Some(id) => has_isolate(self@, key@, plugin_id@) && self@.conns[key@][plugin_id@]
                    == id,
                None => !has_isolate(self@, key@, plugin_id@),
            },
    {
        match self.conns.get(key) {
            Some(isolates) => match isolates.get(plugin_id) {
                Some(id) => Some(*id),
                None => None,
            },
            None => None,
        }
    }

    /// Whether a plugin may read the clipboard history.
    fn plugin_has_history(&self, plugin_id: &String) -> (r: bool)
        ensures
            r == may_read_history(self@, plugin_id@),
    {
        match self.loaded.get(plugin_id) {
            Some(meta) => grants(&meta.manifest.permissions, Permission::ClipboardHistory),
            None => false,
        }
    }

    /// The parameters with which a call is sent.
    fn params_for(&self, isolate_id: u64, call: &QueuedCall) -> (r: Json)
        ensures
            r@ == call_params(self@, isolate_id, call@),
    {
        let mut fields: Vec<(String, Json)> = Vec::new();
        put_field(&mut fields, "isolate_id", Json::Number(Number::Pos(isolate_id)));
        match call {
            QueuedCall::Command { hit, .. } => {
                put_field(&mut fields, "command", text_value(hit.command.as_str()));
                put_field(&mut fields, "input", text_value(hit.input.as_str()));
                put_field(&mut fields, "deadline_ms", Json::Number(Number::Pos(hit.deadline_ms)));
                if self.plugin_has_history(&hit.plugin_id) {
                    put_field(
                        &mut fields,
                        "clipboard_history",
                        history_value(&self.clipboard_history),
                    );
                }
            },
            QueuedCall::Item { item_id, .. } => {
                put_field(&mut fields, "item_id", text_value(item_id.as_str()));
                put_field(
                    &mut fields,
                    "deadline_ms",
                    Json::Number(Number::Pos(STATIC_DEADLINE_MS)),
                );
            },
            QueuedCall::Action { action_id, item_id, .. } => {
                put_field(&mut fields, "action_id", text_value(action_id.as_str()));
                put_field(
                    &mut fields,
                    "deadline_ms",
                    Json::Number(Number::Pos(STATIC_DEADLINE_MS)),
                );
                if let Some(item_id) = item_id {
                    put_field(&mut fields, "item_id", text_value(item_id.as_str()));
                }
            },
            QueuedCall::Submit { values, .. } => {
                put_field(&mut fields, "values", values.clone());
                put_field(
                    &mut fields,
                    "deadline_ms",
                    Json::Number(Number::Pos(STATIC_DEADLINE_MS)),
                );
            },
            QueuedCall::Search { query, .. } => {
                put_field(&mut fields, "query", text_value(query.as_str()));
                put_field(
                    &mut fields,
                    "deadline_ms",
                    Json::Number(Number::Pos(STATIC_DEADLINE_MS)),
                );
            },
        }
        assert(field_views(fields@) =~= call_params(self@, isolate_id, call@)->Object_0);
        object(fields)
    }

    /// Puts a request into the outbox.
    fn send(&mut self, key: &String, request: Request)
        ensures
            final(self)@ == (HostState {
                outbox: old(self)@.outbox.push(
                    OutgoingView { conn_key: key@, request: request@ },
                ),
                ..old(self)@
            }),
    {
        let ghost before = outgoing_views(self.outbox@);
        let out = Outgoing { conn_key: key.clone(), request };
        self.outbox.push(out);
        assert(outgoing_views(self.outbox@) =~= before.push(out@));
    }

    /// Sends a call to the plugin's isolate, where it has one.
    fn dispatch(&mut self, key: &String, call: QueuedCall) -> (r: Option<u64>)
        requires
            old(self)@.next_id < u64::MAX,
        ensures
            final(self)@ == dispatched(old(self)@, key@, call@),
            r == (if has_isolate(old(self)@, key@, call@.plugin()) {
                Some(old(self)@.next_id)
            } else {
                None
            }),
    {
        let plugin_id = call.plugin();
        let isolate_id: u64 = match self.isolate_of(key, &plugin_id) {
            Some(id) => id,
            None => {
                return None;
            },
        };
        let params = self.params_for(isolate_id, &call);
        let name = match &call {
            QueuedCall::Command { .. } => method::COMMAND_INVOKE,
            QueuedCall::Item { .. } => method::ITEM_INVOKE,
            QueuedCall::Action { .. } => method::ACTION_INVOKE,
            QueuedCall::Submit { .. } => method::FORM_SUBMIT,
            QueuedCall::Search { .. } => method::SEARCH_QUERY,
        };
        let id: u64 = self.next_request_id;
        self.next_request_id = id + 1;
        self.send(key, Request::new(id, name, params));
        self.pending.set(id, Pending::Call(call));
        Some(id)
    }

    /// Sends a request to load a plugin.
    fn load_into(&mut self, key: &String, meta: &PluginMeta)
        requires
            old(self)@.next_id < u64::MAX,
        ensures
            final(self)@ == load_sent(old(self)@, key@, meta@),
    {
        let id: u64 = self.next_request_id;
        self.next_request_id = id + 1;
        if !self.conns.has(key) {
            return ;
        }
        let mut fields: Vec<(String, Json)> = Vec::new();
        put_field(&mut fields, "id", text_value(meta.manifest.id.as_str()));
        put_field(&mut fields, "entry_path", text_value(meta.entry.as_str()));
        put_field(&mut fields, "manifest", meta.manifest.to_json());
        assert(field_views(fields@) =~= load_params(meta@)->Object_0);
        self.send(key, Request::new(id, method::PLUGIN_LOAD, object(fields)));
        self.loading_plugins.set(meta.manifest.id.clone(), id);
        self.pending.set(id, Pending::Load { plugin_id: meta.manifest.id.clone() });
    }

    /// Makes a plugin load, unless it is loaded, is being loaded or is not installed.
    fn ensure_loaded(&mut self, key: &String, plugin_id: &String)
        requires
            old(self)@.next_id < u64::MAX,
        ensures
            final(self)@ == load_ensured(old(self)@, key@, plugin_id@),
    {
        if self.loading_plugins.has(plugin_id) {
            return ;
        }
        if self.isolate_of(key, plugin_id).is_some() {
            return ;
        }
        let meta = match self.loaded.get(plugin_id) {
            Some(meta) => meta.clone(),
            None => {
                return ;
            },
        };
        self.load_into(key, &meta);
    }

    /// Makes a call wait for its plugin.
    fn enqueue(&mut self, call: QueuedCall)
        ensures
            final(self)@ == enqueued(old(self)@, call@),
    {
        let plugin_id = call.plugin();
        let ghost before = waiting(self@, plugin_id@);
        let mut queue = match self.queued.take(&plugin_id) {
            Some(queue) => queue,
            None => {
                let queue = CallQueue { calls: Vec::new() };
                assert(queue@ =~= Seq::<CallView>::empty());
                queue
            },
        };
        assert(queue@ == before);
        queue.calls.push(call);
        assert(queue@ =~= before.push(call@));
        self.queued.set(plugin_id, queue);
        assert(self.queued@ =~= old(self).queued@.insert(call@.plugin(), before.push(call@)));
    }

    /// Makes a call: sends it where the plugin has an isolate, else makes it
    /// wait and has the plugin loaded. Gives the id of the request; 0 where the
    /// call waits; `None` where the plugin cannot be reached.
    pub fn call(&mut self, call: QueuedCall) -> (r: Option<u64>)
        requires
            old(self)@.next_id < u64::MAX,
        ensures
            (final(self)@, r) == called(old(self)@, call@),
    {
        let plugin_id = call.plugin();
        let key = self.conn_key_for(&plugin_id);
        if !self.conns.has(&key) {
            return None;
        }
        if self.isolate_of(&key, &plugin_id).is_some() {
            return self.dispatch(&key, call);
        }
        if !self.loaded.has(&plugin_id) {
            return None;
        }
        self.enqueue(call);
        self.ensure_loaded(&key, &plugin_id);
        Some(0)
    }

    /// Sends the calls that waited for a plugin.
    fn flush_queued(&mut self, key: &String, plugin_id: &String)
        requires
            old(self)@.next_id + waiting(old(self)@, plugin_id@).len() <= u64::MAX,
        ensures
            final(self)@ == flushed(old(self)@, key@, plugin_id@),
    {
        let ghost before = self@;
        let mut calls = match self.queued.take(plugin_id) {
            Some(queue) => queue.calls,
            None => {
                assert(before.queued.remove(plugin_id@) =~= before.queued);
                return ;
            },
        };
        let ghost all = call_views(calls@);
        let ghost start = self@;
        proof {
            assert(all == waiting(before, plugin_id@));
            assert(start == HostState { queued: before.queued.remove(plugin_id@), ..before });
            assert(all.skip(0) =~= all);
        }
        let ghost mut n: int = 0;
        while calls.len() > 0
            invariant
                0 <= n <= all.len(),
                call_views(calls@) == all.skip(n),
                self@ == all_dispatched(start, key@, all, n),
                self@.next_id + (all.len() - n) <= u64::MAX,
            decreases calls.len(),
        {
            let call = next_call(&mut calls);
            proof {
                assert(call@ == all[n]);
                assert(all.skip(n).drop_first() =~= all.skip(n + 1));
                n = n + 1;
            }
            let _ = self.dispatch(key, call);
        }
        assert(n == all.len());
    }

    /// Handles a call that found its isolate gone.
    fn handle_stale_isolate(
        &mut self,
        key: &String,
        call: QueuedCall,
        error: &RpcError,
        events: &mut Vec<HostEvent>,
    )
        requires
            old(self)@.next_id < u64::MAX,
        ensures
            final(self)@ == gone_stale(old(self)@, key@, call@, error@).0,
            event_views(final(events)@) == event_views(old(events)@) + gone_stale(
                old(self)@,
                key@,
                call@,
                error@,
            ).1,
    {
        let ghost told = event_views(events@);
        assert(told + Seq::<EventView>::empty() =~= told);
        let plugin_id = call.plugin();
        if let Some(mut isolates) = self.conns.take(key) {
            let _ = isolates.take(&plugin_id);
            self.conns.set(key.clone(), isolates);
            assert(self.conns@ =~= old(self).conns@.insert(
                key@,
                old(self).conns@[key@].remove(plugin_id@),
            ));
        } else {
            assert(old(self).conns@.remove(key@) =~= old(self).conns@);
        }
        if self.loading_plugins.has(&plugin_id) {
            self.enqueue(call);
            return ;
        }
        if !self.loaded.has(&plugin_id) {
            let event = failure_event(call, error);
            push_event(events, event);
            assert(event_views(events@) =~= told + seq![failure(call@, error@)]);
            return ;
        }
        self.ensure_loaded(key, &plugin_id);
        self.enqueue(call);
    }

    /// Tells that the calls that waited for a plugin failed.
    fn fail_queued(&mut self, plugin_id: &String, error: &RpcError, events: &mut Vec<HostEvent>)
        ensures
            final(self)@ == queue_failed(old(self)@, plugin_id@, error@).0,
            event_views(final(events)@) == event_views(old(events)@) + queue_failed(
                old(self)@,
                plugin_id@,
                error@,
            ).1,
    {
        let ghost told = event_views(events@);
        let mut calls = match self.queued.take(plugin_id) {
            Some(queue) => queue.calls,
            None => {
                assert(old(self).queued@.remove(plugin_id@) =~= old(self).queued@);
                assert(told =~= told + queue_failed(old(self)@, plugin_id@, error@).1);
                return ;
            },
        };
        let ghost all = call_views(calls@);
        let ghost want = all.map_values(|c: CallView| failure(c, error@));
        assert(all == waiting(old(self)@, plugin_id@));
        assert(all.skip(0) =~= all);
        assert(told =~= told + want.take(0));
        let ghost mut n: int = 0;
        while calls.len() > 0
            invariant
                0 <= n <= all.len(),
                want == all.map_values(|c: CallView| failure(c, error@)),
                call_views(calls@) == all.skip(n),
                event_views(events@) == told + want.take(n),
            decreases calls.len(),
        {
            let call = next_call(&mut calls);
            proof {
                assert(call@ == all[n]);
                assert(all.skip(n).drop_first() =~= all.skip(n + 1));
            }
            push_event(events, failure_event(call, error));
            proof {
                assert(told + want.take(n + 1) =~= (told + want.take(n)).push(want[n]));
                n = n + 1;
            }
        }
        assert(want.take(n) =~= want);
    }

    /// Handles a response that came over a connection.
    pub fn handle_response(
        &mut self,
        conn_key: &str,
        response: Response,
        events: &mut Vec<HostEvent>,
    )
        requires
            ids_left(old(self)@),
        ensures
            final(self)@ == responded(old(self)@, conn_key@, response@).0,
            event_views(final(events)@) == event_views(old(events)@) + responded(
                old(self)@,
                conn_key@,
                response@,
            ).1,
    {
        let ghost told = event_views(events@);
        assert(told + Seq::<EventView>::empty() =~= told);
        let key = conn_key.to_owned();
        let pending = match self.pending.take(&response.id) {
            Some(pending) => pending,
            None => {
                assert(old(self).pending@.remove(response.id) =~= old(self).pending@);
                return ;
            },
        };
        match pending {
            Pending::Load { plugin_id } => {
                let _ = self.loading_plugins.take(&plugin_id);
                let isolate = match &response.result {
                    Some(result) => result.get_u64("isolate_id"),
                    None => None,
                };
                if let Some(isolate_id) = isolate {
                    if let Some(mut isolates) = self.conns.take(&key) {
                        isolates.set(plugin_id.clone(), isolate_id);
                        self.conns.set(key.clone(), isolates);
                        assert(self.conns@ =~= old(self).conns@.insert(
                            key@,
                            old(self).conns@[key@].insert(plugin_id@, isolate_id),
                        ));
                    } else {
                        assert(old(self).conns@.remove(key@) =~= old(self).conns@);
                    }
                    proof {
                        let st = old(self)@;
                        assert(self@.queued == st.queued);
                        if st.queued.contains_key(plugin_id@) {
                            assert(st.next_id + st.queued[plugin_id@].len() < u64::MAX);
                        }
                    }
                    self.flush_queued(&key, &plugin_id);
                } else if let Some(error) = &response.error {
                    self.fail_queued(&plugin_id, error, events);
                }
            },
            Pending::Call(call) => {
                if let Some(error) = &response.error {
                    if error.code == code::PLUGIN_NOT_FOUND {
                        self.handle_stale_isolate(&key, call, error, events);
                        return ;
                    }
                }
                push_answer(call, response, events);
            },
        }
    }
}

/// The plugins that a connection serves: all that share the pool, or the one
/// with the process for itself.
pub open spec fn served_by(st: HostState, key: Seq<char>, plugin_id: Seq<char>) -> bool {
    if key == shared_pool() {
        st.loaded.contains_key(plugin_id) && st.loaded[plugin_id].manifest.isolation
            == Isolation::SharedPool
    } else {
        plugin_id == key
    }
}

/// The state without what was under way for the plugins of a connection. The
/// installed plugins stay.
pub open spec fn forgotten(st: HostState, key: Seq<char>) -> HostState {
    HostState {
        loading: Map::new(
            |p: Seq<char>| st.loading.contains_key(p) && !served_by(st, key, p),
            |p: Seq<char>| st.loading[p],
        ),
        queued: Map::new(
            |p: Seq<char>| st.queued.contains_key(p) && !served_by(st, key, p),
            |p: Seq<char>| st.queued[p],
        ),
        pending: Map::new(
            |id: u64| st.pending.contains_key(id) && !served_by(st, key, st.pending[id].plugin()),
            |id: u64| st.pending[id],
        ),
        ..st
    }
}

/// The plugin that a connection key names; `None` is the shared pool.
pub open spec fn key_plugin(key: Seq<char>) -> Option<Seq<char>> {
    if key == shared_pool() {
        None
    } else {
        Some(key)
    }
}

/// The restart attempts made so far.
pub open spec fn attempts_made(st: HostState, key: Seq<char>) -> u32 {
    if st.restarts.contains_key(key) {
        st.restarts[key].attempts
    } else {
        0
    }
}

/// When restart attempt `attempts` is due.
pub open spec fn restart_due(st: HostState, attempts: u32, now: u128) -> RestartState {
    RestartState {
        attempts,
        next_attempt: (now + backoff_delay(
            attempts as int,
            st.base_backoff as int,
            st.max_backoff as int,
        )) as u128,
    }
}

/// The state and the events after a runtime process died at the time `now`.
pub open spec fn crashed(st: HostState, key: Seq<char>, now: u128) -> (HostState, Seq<EventView>) {
    if !st.conns.contains_key(key) {
        (st, Seq::empty())
    } else {
        let left = forgotten(HostState { conns: st.conns.remove(key), ..st }, key);
        let attempts = (attempts_made(st, key) + 1) as u32;
        (
            HostState {
                restarts: st.restarts.insert(key, restart_due(st, attempts, now)),
                ..left
            },
            seq![EventView::RuntimeCrashed { plugin_id: key_plugin(key) }],
        )
    }
}

/// The state and the event after a restart was tried, which went well or did not.
pub open spec fn restarted(st: HostState, key: Seq<char>, started: bool, now: u128) -> (
    HostState,
    Option<EventView>,
) {
    if !st.restarts.contains_key(key) {
        (st, None)
    } else if started {
        (
            HostState {
                restarts: st.restarts.remove(key),
                conns: st.conns.insert(key, Map::empty()),
                ..st
            },
            Some(EventView::RuntimeRestarted { plugin_id: key_plugin(key) }),
        )
    } else {
        let attempts = (st.restarts[key].attempts + 1) as u32;
        (
            HostState {
                restarts: st.restarts.insert(key, restart_due(st, attempts, now)),
                ..st
            },
            None,
        )
    }
}

/// What came from a runtime process.
#[derive(Debug)]
pub enum Frame {
    Response(Response),
    Notification(Notification),
    /// The process exited, or its output closed.
    Eof,
}

/// What a [`Frame`] is.
pub enum FrameView {
    Response(ResponseView),
    Notification(NotificationView),
    Eof,
}

impl View for Frame {
    type V = FrameView;

    open spec fn view(&self) -> FrameView {
        match *self {
            Frame::Response(r) => FrameView::Response(r@),
            Frame::Notification(n) => FrameView::Notification(n@),
            Frame::Eof => FrameView::Eof,
        }
    }
}

/// The state and the events after a frame came over a connection. Of the
/// notifications only toasts are told.
pub open spec fn received(st: HostState, key: Seq<char>, frame: FrameView, now: u128) -> (
    HostState,
    Seq<EventView>,
) {
    match frame {
        FrameView::Response(response) => responded(st, key, response),
        FrameView::Notification(n) => (
            st,
            if n.method == method::TOAST_SHOW@ {
                seq![EventView::Toast { params: n.params }]
            } else {
                Seq::empty()
            },
        ),
        FrameView::Eof => crashed(st, key, now),
    }
}

/// The installed plugins by id; of two with the same id the later counts.
pub open spec fn metas_by_id(metas: Seq<MetaView>) -> Map<Seq<char>, MetaView>
    decreases metas.len(),
{
    if metas.len() == 0 {
        Map::empty()
    } else {
        metas_by_id(metas.drop_last()).insert(metas.last().manifest.id, metas.last())
    }
}

/// The isolation levels of installed plugins.
pub open spec fn isolations(loaded: Map<Seq<char>, MetaView>) -> Map<Seq<char>, Isolation> {
    loaded.map_values(|m: MetaView| m.manifest.isolation)
}

/// The routes of all the plugins, added in order.
pub open spec fn routes_for(metas: Seq<MetaView>) -> IndexView
    decreases metas.len(),
{
    if metas.len() == 0 {
        empty_index()
    } else {
        with_plugin(
            routes_for(metas.drop_last()),
            metas.last().manifest.id,
            metas.last().manifest.commands,
        )
    }
}

/// The state of a host that was shut down: that of a new one, but for the
/// request ids, which are not used again.
pub open spec fn shut_down(st: HostState) -> HostState {
    HostState {
        routes: empty_index(),
        conns: Map::empty(),
        pending: Map::empty(),
        restarts: Map::empty(),
        loading: Map::empty(),
        queued: Map::empty(),
        loaded: Map::empty(),
        history: Seq::empty(),
        outbox: Seq::empty(),
        ..st
    }
}

/// The ids of the plugins that have a process for themselves, in order.
pub open spec fn dedicated_ids(metas: Seq<MetaView>) -> Seq<Seq<char>>
    decreases metas.len(),
{
    if metas.len() == 0 {
        Seq::empty()
    } else {
        let rest = dedicated_ids(metas.drop_last());
        if metas.last().manifest.isolation == Isolation::DedicatedProcess {
            rest.push(metas.last().manifest.id)
        } else {
            rest
        }
    }
}

/// Whether some plugin shares the pool.
pub open spec fn any_shared(metas: Seq<MetaView>) -> bool {
    exists|i: int|
        0 <= i < metas.len() && (#[trigger] metas[i]).manifest.isolation == Isolation::SharedPool
}

/// The connections that a set of plugins needs: the shared pool where some
/// plugin shares it, then one for each plugin with a process for itself.
pub open spec fn connections_for(metas: Seq<MetaView>) -> Seq<Seq<char>> {
    (if any_shared(metas) {
        seq![shared_pool()]
    } else {
        Seq::empty()
    }) + dedicated_ids(metas)
}

/// The views of a list of plugins.
pub open spec fn meta_views(v: Seq<PluginMeta>) -> Seq<MetaView> {
    v.map_values(|m: PluginMeta| m@)
}

/// What a new set of plugins asks of the owner of the host.
#[derive(Debug)]
pub enum PluginSetChange {
    /// The same plugins at the same isolation levels: nothing.
    Unchanged,
    /// Stop the processes of the connections `stop`; then start one for each
    /// of `start`, in order, and report each ([`PluginHost::conn_started`]),
    /// which tells whether to go on. At the end rebuild the routes
    /// ([`PluginHost::rebuild_routes`]).
    Replace { stop: Vec<String>, start: Vec<String> },
}

/// The entries of a table whose keys are not among `keys`.
fn without_keys<V: View>(table: Table<String, V>, keys: &Vec<String>) -> (r: Table<String, V>)
    ensures
        r@ == Map::new(
            |p: Seq<char>| table@.contains_key(p) && !views(keys@).contains(p),
            |p: Seq<char>| table@[p],
        ),
{
    let ghost all = table@;
    let mut rest = table;
    let mut r: Table<String, V> = Table::new();
    loop
        invariant
            forall|p: Seq<char>| #[trigger]
                rest@.contains_key(p) ==> all.contains_key(p) && rest@[p] == all[p],
            forall|p: Seq<char>| #[trigger]
                r@.contains_key(p) <==> all.contains_key(p) && !rest@.contains_key(p)
                    && !views(keys@).contains(p),
            forall|p: Seq<char>| #[trigger] r@.contains_key(p) ==> r@[p] == all[p],
        ensures
            forall|p: Seq<char>| !rest@.contains_key(p),
        decreases rest@.len(),
    {
        match rest.pop() {
            Some((k, v)) => {
                if !contains_text(keys, k.as_str()) {
                    r.set(k, v);
                }
            },
            None => {
                break ;
            },
        }
    }
    assert(r@ =~= Map::new(
        |p: Seq<char>| all.contains_key(p) && !views(keys@).contains(p),
        |p: Seq<char>| all[p],
    ));
    r
}

/// The pending requests that are not for one of the plugins.
fn without_plugins(table: Table<u64, Pending>, plugins: &Vec<String>) -> (r: Table<u64, Pending>)
    ensures
        r@ == Map::new(
            |id: u64| table@.contains_key(id) && !views(plugins@).contains(table@[id].plugin()),
            |id: u64| table@[id],
        ),
{
    let ghost all = table@;
    let mut rest = table;
    let mut r: Table<u64, Pending> = Table::new();
    loop
        invariant
            forall|p: u64| #[trigger]
                rest@.contains_key(p) ==> all.contains_key(p) && rest@[p] == all[p],
            forall|p: u64| #[trigger]
                r@.contains_key(p) <==> all.contains_key(p) && !rest@.contains_key(p)
                    && !views(plugins@).contains(all[p].plugin()),
            forall|p: u64| #[trigger] r@.contains_key(p) ==> r@[p] == all[p],
        ensures
            forall|p: u64| !rest@.contains_key(p),
        decreases rest@.len(),
    {
        match rest.pop() {
            Some((k, v)) => {
                let plugin_id = match &v {
                    Pending::Load { plugin_id } => plugin_id.clone(),
                    Pending::Call(call) => call.plugin(),
                };
                if !contains_text(plugins, plugin_id.as_str()) {
                    r.set(k, v);
                }
            },
            None => {
                break ;
            },
        }
    }
    assert(r@ =~= Map::new(
        |id: u64| all.contains_key(id) && !views(plugins@).contains(all[id].plugin()),
        |id: u64| all[id],
    ));
    r
}

impl PluginHost {
    /// A host without plugins. Request ids start at 1.
    pub fn new(config: HostConfig) -> (r: Self)
        ensures
            r@ == (HostState {
                runtime_bin: config.runtime_bin@,
                base_backoff: config.base_backoff,
                max_backoff: config.max_backoff,
                routes: empty_index(),
                conns: Map::empty(),
                next_id: 1,
                pending: Map::empty(),
                restarts: Map::empty(),
                loading: Map::empty(),
                queued: Map::empty(),
                loaded: Map::empty(),
                history: Seq::empty(),
                outbox: Seq::empty(),
            }),
            crate::host_laws::sound(r@),
    {
        let r = PluginHost {
            config,
            routes: RouteIndex::new(),
            conns: Table::new(),
            next_request_id: 1,
            pending: Table::new(),
            restarts: Table::new(),
            loading_plugins: Table::new(),
            queued: Table::new(),
            loaded: Table::new(),
            clipboard_history: Vec::new(),
            outbox: Vec::new(),
        };
        assert(r@.history =~= Seq::<ClipboardView>::empty());
        assert(r@.outbox =~= Seq::<OutgoingView>::empty());
        r
    }

    /// The path of the runtime binary.
    pub fn runtime_bin(&self) -> (r: &String)
        ensures
            r@ == self@.runtime_bin,
    {
        &self.config.runtime_bin
    }

    /// Replaces the clipboard history that plugins with the permission are handed.
    pub fn set_clipboard_history(&mut self, entries: Vec<ClipboardEntry>)
        ensures
            final(self)@ == (HostState { history: clipboard_views(entries@), ..old(self)@ }),
    {
        self.clipboard_history = entries;
    }

    /// The clipboard history.
    pub fn clipboard_history(&self) -> (r: &Vec<ClipboardEntry>)
        ensures
            clipboard_views(r@) == self@.history,
    {
        &self.clipboard_history
    }

    /// The hits of a query among the loaded plugins' routes. No plugin is woken.
    pub fn query(&self, query: &str) -> (r: Vec<RouteHit>)
        ensures
            hit_views(r@) == query_hits(self@.routes, query@),
            self@.routes.valid(),
    {
        self.routes.match_query(query)
    }

    /// The number of routes.
    pub fn route_count(&self) -> (r: usize)
        requires
            self@.routes.count() <= usize::MAX,
        ensures
            r == self@.routes.count(),
    {
        self.routes.len()
    }

    /// Calls a plugin's command for a route hit, for the query generation `gen`.
    /// Gives the id of the request; 0 where the call waits for the plugin to be
    /// loaded; `None` where the plugin cannot be reached.
    pub fn invoke(&mut self, gen: u64, hit: &RouteHit) -> (r: Option<u64>)
        requires
            old(self)@.next_id < u64::MAX,
        ensures
            (final(self)@, r) == called(old(self)@, CallView::Command { gen, hit: hit@ }),
    {
        self.call(QueuedCall::Command { gen, hit: hit.clone() })
    }

    /// Selects a list item of a plugin's view.
    pub fn invoke_item(&mut self, plugin_id: &str, command: &str, item_id: &str) -> (r: Option<u64>)
        requires
            old(self)@.next_id < u64::MAX,
        ensures
            (final(self)@, r) == called(
                old(self)@,
                CallView::Item { plugin_id: plugin_id@, command: command@, item_id: item_id@ },
            ),
    {
        self.call(
            QueuedCall::Item {
                plugin_id: plugin_id.to_owned(),
                command: command.to_owned(),
                item_id: item_id.to_owned(),
            },
        )
    }

    /// Runs an action of a plugin's view.
    pub fn invoke_action(
        &mut self,
        plugin_id: &str,
        action_id: &str,
        item_id: Option<&str>,
    ) -> (r: Option<u64>)
        requires
            old(self)@.next_id < u64::MAX,
        ensures
            (final(self)@, r) == called(
                old(self)@,
                CallView::Action {
                    plugin_id: plugin_id@,
                    action_id: action_id@,
                    item_id: match item_id {
                        Some(s) => Some(s@),
                        None => None,
                    },
                },
            ),
    {
        let item_id = match item_id {
            Some(s) => Some(s.to_owned()),
            None => None,
        };
        self.call(
            QueuedCall::Action {
                plugin_id: plugin_id.to_owned(),
                action_id: action_id.to_owned(),
                item_id,
            },
        )
    }

    /// Submits a plugin's form.
    pub fn invoke_submit(&mut self, plugin_id: &str, values: &Json) -> (r: Option<u64>)
        requires
            old(self)@.next_id < u64::MAX,
        ensures
            (final(self)@, r) == called(
                old(self)@,
                CallView::Submit { plugin_id: plugin_id@, values: values@ },
            ),
    {
        self.call(QueuedCall::Submit { plugin_id: plugin_id.to_owned(), values: values.clone() })
    }

    /// Asks a plugin's search view for results.
    pub fn invoke_search(
        &mut self,
        gen: u64,
        plugin_id: &str,
        command: &str,
        query: &str,
    ) -> (r: Option<u64>)
        requires
            old(self)@.next_id < u64::MAX,
        ensures
            (final(self)@, r) == called(
                old(self)@,
                CallView::Search {
                    gen,
                    plugin_id: plugin_id@,
                    command: command@,
                    query: query@,
                },
            ),
    {
        self.call(
            QueuedCall::Search {
                gen,
                plugin_id: plugin_id.to_owned(),
                command: command.to_owned(),
                query: query.to_owned(),
            },
        )
    }

    /// Hands out what is to be sent, in order.
    pub fn take_outgoing(&mut self) -> (r: Vec<Outgoing>)
        ensures
            outgoing_views(r@) == old(self)@.outbox,
            final(self)@ == (HostState { outbox: Seq::empty(), ..old(self)@ }),
    {
        let mut r: Vec<Outgoing> = Vec::new();
        core::mem::swap(&mut r, &mut self.outbox);
        assert(outgoing_views(self.outbox@) =~= Seq::<OutgoingView>::empty());
        r
    }

    /// Takes note that a request could not be sent: nothing waits for it.
    pub fn send_failed(&mut self, id: u64)
        ensures
            final(self)@ == unsent(old(self)@, id),
    {
        match self.pending.take(&id) {
            Some(Pending::Load { plugin_id }) => {
                let _ = self.loading_plugins.take(&plugin_id);
            },
            Some(_) => {},
            None => {
                assert(old(self).pending@.remove(id) =~= old(self).pending@);
            },
        }
    }

    /// Whether enough request ids are left to handle any frame.
    pub fn has_ids_left(&self) -> (r: bool)
        ensures
            r == ids_left(self@),
    {
        if self.next_request_id == u64::MAX {
            return false;
        }
        let keys = self.queued.keys();
        let mut i: usize = 0;
        while i < keys.len()
            invariant
                i <= keys.len(),
                self.next_request_id < u64::MAX,
                forall|p: Seq<char>| #[trigger]
                    self.queued@.contains_key(p) <==> exists|k: int|
                        0 <= k < keys@.len() && (#[trigger] keys@[k])@ == p,
                forall|k: int|
                    0 <= k < i ==> self.next_request_id + self.queued@[(#[trigger] keys@[k])@].len()
                        < u64::MAX,
            decreases keys.len() - i,
        {
            assert(self.queued@.contains_key(keys@[i as int]@));
            if let Some(queue) = self.queued.get(&keys[i]) {
                if queue.calls.len() as u64 >= u64::MAX - self.next_request_id {
                    assert(!ids_left(self@)) by {
                        assert(self@.queued.contains_key(keys@[i as int]@));
                    }
                    return false;
                }
            }
            i += 1;
        }
        true
    }

    /// The plugins that a connection serves.
    fn served(&self, key: &String) -> (r: Vec<String>)
        ensures
            forall|p: Seq<char>| views(r@).contains(p) <==> served_by(self@, key@, p),
    {
        let mut r: Vec<String> = Vec::new();
        if !key.as_str().is_empty() {
            r.push(key.clone());
            assert(views(r@) =~= seq![key@]);
            assert(seq![key@][0] == key@);
            return r;
        }
        assert(key@ =~= shared_pool());
        let ids = self.loaded.keys();
        let mut i: usize = 0;
        while i < ids.len()
            invariant
                i <= ids.len(),
                key@ == shared_pool(),
                forall|p: Seq<char>| #[trigger]
                    self.loaded@.contains_key(p) <==> exists|k: int|
                        0 <= k < ids@.len() && (#[trigger] ids@[k])@ == p,
                forall|p: Seq<char>| #[trigger]
                    views(r@).contains(p) ==> served_by(self@, key@, p),
                forall|k: int|
                    0 <= k < i && served_by(self@, key@, (#[trigger] ids@[k])@) ==> views(
                        r@,
                    ).contains(ids@[k]@),
            decreases ids.len() - i,
        {
            assert(self.loaded@.contains_key(ids@[i as int]@));
            if let Some(meta) = self.loaded.get(&ids[i]) {
                if meta.manifest.isolation == Isolation::SharedPool {
                    let ghost before = views(r@);
                    r.push(ids[i].clone());
                    proof {
                        let now = views(r@);
                        assert(now =~= before.push(ids@[i as int]@));
                        assert(now[before.len() as int] == ids@[i as int]@);
                        assert forall|p: Seq<char>| #[trigger] now.contains(p) implies served_by(
                            self@,
                            key@,
                            p,
                        ) by {
                            let j = choose|j: int| 0 <= j < now.len() && now[j] == p;
                            if j < before.len() {
                                assert(before[j] == p);
                                assert(before.contains(p));
                            }
                        }
                        assert forall|k: int|
                            0 <= k < i + 1 && served_by(
                                self@,
                                key@,
                                (#[trigger] ids@[k])@,
                            ) implies now.contains(ids@[k]@) by {
                            if k < i {
                                assert(before.contains(ids@[k]@));
                                let j = choose|j: int|
                                    0 <= j < before.len() && before[j] == ids@[k]@;
                                assert(now[j] == ids@[k]@);
                            }
                        }
                    }
                }
            }
            i += 1;
        }
        r
    }

    /// Forgets what was under way for the plugins of a connection.
    fn forget_conn_state(&mut self, key: &String)
        ensures
            final(self)@ == forgotten(old(self)@, key@),
    {
        let served = self.served(key);
        let ghost st = self@;
        let mut loading: Table<String, u64> = Table::new();
        core::mem::swap(&mut loading, &mut self.loading_plugins);
        self.loading_plugins = without_keys(loading, &served);
        let mut queued: Table<String, CallQueue> = Table::new();
        core::mem::swap(&mut queued, &mut self.queued);
        self.queued = without_keys(queued, &served);
        let mut pending: Table<u64, Pending> = Table::new();
        core::mem::swap(&mut pending, &mut self.pending);
        self.pending = without_plugins(pending, &served);
        proof {
            let want = forgotten(st, key@);
            assert(self@.loading =~= want.loading);
            assert(self@.queued =~= want.queued);
            assert(self@.pending =~= want.pending);
        }
    }

    /// Handles the end of a runtime process: what was under way there is
    /// forgotten, and a restart is due after a delay.
    fn handle_eof(&mut self, key: &String, now: u128, events: &mut Vec<HostEvent>)
        requires
            attempts_made(old(self)@, key@) < u32::MAX,
            now + old(self)@.max_backoff <= u128::MAX,
        ensures
            final(self)@ == crashed(old(self)@, key@, now).0,
            event_views(final(events)@) == event_views(old(events)@) + crashed(
                old(self)@,
                key@,
                now,
            ).1,
    {
        let ghost told = event_views(events@);
        if self.conns.take(key).is_none() {
            assert(old(self).conns@.remove(key@) =~= old(self).conns@);
            assert(told + Seq::<EventView>::empty() =~= told);
            return ;
        }
        self.forget_conn_state(key);
        let plugin_id = if key.as_str().is_empty() {
            assert(key@ =~= shared_pool());
            None
        } else {
            Some(key.clone())
        };
        push_event(events, HostEvent::RuntimeCrashed { plugin_id });
        assert(event_views(events@) =~= told + seq![
            EventView::RuntimeCrashed { plugin_id: key_plugin(key@) },
        ]);
        let attempts: u32 = match self.restarts.get(key) {
            Some(state) => state.attempts + 1,
            None => 1,
        };
        let delay: u128 = backoff(attempts, self.config.base_backoff, self.config.max_backoff);
        self.restarts.set(key.clone(), RestartState { attempts, next_attempt: now + delay });
    }

    /// Handles a frame that came over a connection at the time `now`. After
    /// [`Frame::Eof`] the owner lets go of the process.
    pub fn handle_frame(
        &mut self,
        conn_key: &str,
        frame: Frame,
        now: u128,
        events: &mut Vec<HostEvent>,
    )
        requires
            ids_left(old(self)@),
            attempts_made(old(self)@, conn_key@) < u32::MAX,
            now + old(self)@.max_backoff <= u128::MAX,
        ensures
            final(self)@ == received(old(self)@, conn_key@, frame@, now).0,
            event_views(final(events)@) == event_views(old(events)@) + received(
                old(self)@,
                conn_key@,
                frame@,
                now,
            ).1,
    {
        let ghost told = event_views(events@);
        match frame {
            Frame::Response(response) => self.handle_response(conn_key, response, events),
            Frame::Notification(notification) => {
                if same(notification.method.as_str(), method::TOAST_SHOW) {
                    push_event(events, HostEvent::Toast { params: notification.params });
                    assert(event_views(events@) =~= told + seq![
                        EventView::Toast { params: notification.params@ },
                    ]);
                } else {
                    assert(told + Seq::<EventView>::empty() =~= told);
                }
            },
            Frame::Eof => {
                let key = conn_key.to_owned();
                self.handle_eof(&key, now, events)
            },
        }
    }

    /// Whether a restart of a connection can be put off once more at the time `now`.
    pub fn can_put_off(&self, key: &str, now: u128) -> (r: bool)
        ensures
            r == (attempts_made(self@, key@) < u32::MAX && now + self@.max_backoff <= u128::MAX),
    {
        let attempts: u32 = match self.restarts.get(&key.to_owned()) {
            Some(state) => state.attempts,
            None => 0,
        };
        attempts < u32::MAX && now <= u128::MAX - self.config.max_backoff
    }

    /// The connections whose restart is due at the time `now`, each once.
    pub fn due_restarts(&self, now: u128) -> (r: Vec<String>)
        ensures
            forall|k: Seq<char>|
                views(r@).contains(k) <==> self@.restarts.contains_key(k)
                    && self@.restarts[k].next_attempt <= now,
            views(r@).no_duplicates(),
    {
        let keys = self.restarts.keys();
        let mut r: Vec<String> = Vec::new();
        let mut i: usize = 0;
        while i < keys.len()
            invariant
                i <= keys.len(),
                forall|p: Seq<char>| #[trigger]
                    self.restarts@.contains_key(p) <==> exists|k: int|
                        0 <= k < keys@.len() && (#[trigger] keys@[k])@ == p,
                forall|a: int, b: int|
                    0 <= a < b < keys@.len() ==> (#[trigger] keys@[a])@ != (#[trigger] keys@[b])@,
                forall|p: Seq<char>| #[trigger]
                    views(r@).contains(p) ==> self.restarts@.contains_key(p)
                        && self.restarts@[p].next_attempt <= now && exists|k: int|
                        0 <= k < i && (#[trigger] keys@[k])@ == p,
                forall|k: int|
                    0 <= k < i && self.restarts@[(#[trigger] keys@[k])@].next_attempt <= now
                        ==> views(r@).contains(keys@[k]@),
                views(r@).no_duplicates(),
            decreases keys.len() - i,
        {
            assert(self.restarts@.contains_key(keys@[i as int]@));
            if let Some(state) = self.restarts.get(&keys[i]) {
                if state.next_attempt <= now {
                    let ghost before = views(r@);
                    r.push(keys[i].clone());
                    proof {
                        let all = views(r@);
                        let key = keys@[i as int]@;
                        assert(all =~= before.push(key));
                        assert(all[before.len() as int] == key);
                        assert(!before.contains(key));
                        assert forall|p: Seq<char>| #[trigger]
                            all.contains(p) implies self.restarts@.contains_key(p)
                            && self.restarts@[p].next_attempt <= now && exists|k: int|
                            0 <= k < i + 1 && (#[trigger] keys@[k])@ == p by {
                            let j = choose|j: int| 0 <= j < all.len() && all[j] == p;
                            if j < before.len() {
                                assert(before[j] == p);
                                assert(before.contains(p));
                            } else {
                                assert(keys@[i as int]@ == p);
                            }
                        }
                        assert forall|k: int|
                            0 <= k < i + 1 && self.restarts@[(#[trigger] keys@[k])@].next_attempt
                                <= now implies all.contains(keys@[k]@) by {
                            if k < i {
                                assert(before.contains(keys@[k]@));
                                let j = choose|j: int|
                                    0 <= j < before.len() && before[j] == keys@[k]@;
                                assert(all[j] == keys@[k]@);
                            }
                        }
                    }
                }
            }
            i += 1;
        }
        r
    }

    /// Takes note of a restart that was tried at the time `now`.
    pub fn try_restart(&mut self, key: &str, started: bool, now: u128) -> (r: Option<HostEvent>)
        requires
            attempts_made(old(self)@, key@) < u32::MAX,
            now + old(self)@.max_backoff <= u128::MAX,
        ensures
            final(self)@ == restarted(old(self)@, key@, started, now).0,
            match r {
                Some(event) => restarted(old(self)@, key@, started, now).1 == Some(event@),
                None => restarted(old(self)@, key@, started, now).1 is None,
            },
    {
        let key = key.to_owned();
        let state = match self.restarts.take(&key) {
            Some(state) => state,
            None => {
                assert(old(self).restarts@.remove(key@) =~= old(self).restarts@);
                return None;
            },
        };
        if started {
            let plugin_id = if key.as_str().is_empty() {
                assert(key@ =~= shared_pool());
                None
            } else {
                Some(key.clone())
            };
            self.conns.set(key, Table::new());
            Some(HostEvent::RuntimeRestarted { plugin_id })
        } else {
            let attempts: u32 = state.attempts + 1;
            let delay: u128 = backoff(attempts, self.config.base_backoff, self.config.max_backoff);
            self.restarts.set(key, RestartState { attempts, next_attempt: now + delay });
            assert(self.restarts@ =~= old(self).restarts@.insert(
                key@,
                restart_due(old(self)@, attempts, now),
            ));
            None
        }
    }

    /// Takes note of whether the process of a connection of a new set of plugins
    /// was started, and tells whether to go on: without the shared pool the set
    /// is given up, while a plugin with a process for itself can be missing.
    pub fn conn_started(&mut self, key: &str, started: bool) -> (r: bool)
        ensures
            final(self)@ == (if started {
                HostState { conns: old(self)@.conns.insert(key@, Map::empty()), ..old(self)@ }
            } else {
                old(self)@
            }),
            r == (started || key@ != shared_pool()),
    {
        if started {
            self.conns.set(key.to_owned(), Table::new());
            return true;
        }
        let shared = key.is_empty();
        assert(shared == (key@ =~= shared_pool()));
        !shared
    }

    /// Drops all state, and names the connections whose processes are to be
    /// stopped, each once.
    pub fn shutdown(&mut self) -> (r: Vec<String>)
        ensures
            final(self)@ == shut_down(old(self)@),
            forall|k: Seq<char>| views(r@).contains(k) <==> old(self)@.conns.contains_key(k),
            views(r@).no_duplicates(),
    {
        let r = self.conns.keys();
        proof {
            assert forall|k: Seq<char>| views(r@).contains(k) <==> self@.conns.contains_key(k) by {
                if self@.conns.contains_key(k) {
                    let i = choose|i: int| 0 <= i < r@.len() && (#[trigger] r@[i])@ == k;
                    assert(views(r@)[i] == k);
                }
                if views(r@).contains(k) {
                    let i = choose|i: int| 0 <= i < views(r@).len() && views(r@)[i] == k;
                    assert(r@[i]@ == k);
                }
            }
            assert forall|i: int, j: int|
                0 <= i < views(r@).len() && 0 <= j < views(r@).len() && i != j implies views(r@)[i]
                != views(r@)[j] by {
                assert(r@[i]@ == views(r@)[i] && r@[j]@ == views(r@)[j]);
                if i < j {
                    assert(r@[i]@ != r@[j]@);
                } else {
                    assert(r@[j]@ != r@[i]@);
                }
            }
        }
        self.routes.clear();
        self.conns.clear();
        self.pending.clear();
        self.restarts.clear();
        self.loading_plugins.clear();
        self.queued.clear();
        self.loaded.clear();
        self.clipboard_history = Vec::new();
        assert(self@.history =~= Seq::<ClipboardView>::empty());
        self.outbox = Vec::new();
        assert(self@.outbox =~= Seq::<OutgoingView>::empty());
        r
    }

    /// Builds the routes anew.
    pub fn rebuild_routes(&mut self, metas: &Vec<PluginMeta>)
        ensures
            final(self)@ == (HostState { routes: routes_for(meta_views(metas@)), ..old(self)@ }),
    {
        let ghost all = meta_views(metas@);
        self.routes.clear();
        assert(all.take(0) =~= Seq::<MetaView>::empty());
        let mut i: usize = 0;
        while i < metas.len()
            invariant
                i <= metas.len(),
                all == meta_views(metas@),
                self@ == (HostState { routes: routes_for(all.take(i as int)), ..old(self)@ }),
            decreases metas.len() - i,
        {
            let manifest = &metas[i].manifest;
            assert(all.take(i + 1).drop_last() =~= all.take(i as int));
            assert(all.take(i + 1).last() == metas@[i as int]@);
            self.routes.add_plugin(manifest.id.as_str(), manifest.commands.as_slice());
            i += 1;
        }
        assert(all.take(all.len() as int) =~= all);
    }
}

/// The state after a request turned out not to have been sent.
pub open spec fn unsent(st: HostState, id: u64) -> HostState {
    let rest = HostState { pending: st.pending.remove(id), ..st };
    if st.pending.contains_key(id) {
        match st.pending[id] {
            PendingView::Load { plugin_id } => HostState {
                loading: st.loading.remove(plugin_id),
                ..rest
            },
            PendingView::Call(_) => rest,
        }
    } else {
        st
    }
}

/// Whether the plugins are those installed, at the same isolation levels.
pub open spec fn same_plugins(st: HostState, metas: Seq<MetaView>) -> bool {
    isolations(metas_by_id(metas)) == isolations(st.loaded)
}

/// The state after a set of plugins was installed. Where these are the plugins
/// there were, at the same isolation levels, only the routes are built anew;
/// else all connections go, and with them the routes and all that was under way.
pub open spec fn plugins_set(st: HostState, metas: Seq<MetaView>) -> HostState {
    if same_plugins(st, metas) {
        HostState { routes: routes_for(metas), ..st }
    } else {
        HostState { loaded: metas_by_id(metas), history: st.history, ..shut_down(st) }
    }
}

/// The plugins by id.
pub(crate) fn table_of(metas: &Vec<PluginMeta>) -> (r: Table<String, PluginMeta>)
    ensures
        r@ == metas_by_id(meta_views(metas@)),
{
    let ghost all = meta_views(metas@);
    let mut r: Table<String, PluginMeta> = Table::new();
    assert(all.take(0) =~= Seq::<MetaView>::empty());
    let mut i: usize = 0;
    while i < metas.len()
        invariant
            i <= metas.len(),
            all == meta_views(metas@),
            r@ == metas_by_id(all.take(i as int)),
        decreases metas.len() - i,
    {
        assert(all.take(i + 1).drop_last() =~= all.take(i as int));
        assert(all.take(i + 1).last() == metas@[i as int]@);
        r.set(metas[i].manifest.id.clone(), metas[i].clone());
        i += 1;
    }
    assert(all.take(all.len() as int) =~= all);
    r
}

/// Whether every plugin of `a` is in `b`, at the same isolation level.
fn all_within(a: &Table<String, PluginMeta>, b: &Table<String, PluginMeta>) -> (r: bool)
    ensures
        r == forall|p: Seq<char>| #[trigger]
            a@.contains_key(p) ==> b@.contains_key(p) && b@[p].manifest.isolation
                == a@[p].manifest.isolation,
{
    let keys = a.keys();
    let mut i: usize = 0;
    while i < keys.len()
        invariant
            i <= keys.len(),
            forall|p: Seq<char>| #[trigger]
                a@.contains_key(p) <==> exists|k: int|
                    0 <= k < keys@.len() && (#[trigger] keys@[k])@ == p,
            forall|k: int|
                0 <= k < i ==> b@.contains_key((#[trigger] keys@[k])@)
                    && b@[keys@[k]@].manifest.isolation == a@[keys@[k]@].manifest.isolation,
        decreases keys.len() - i,
    {
        assert(a@.contains_key(keys@[i as int]@));
        match (a.get(&keys[i]), b.get(&keys[i])) {
            (Some(x), Some(y)) => {
                if x.manifest.isolation != y.manifest.isolation {
                    return false;
                }
            },
            _ => {
                return false;
            },
        }
        i += 1;
    }
    true
}

/// The connections that a set of plugins needs.
fn needed_connections(metas: &Vec<PluginMeta>) -> (r: Vec<String>)
    ensures
        views(r@) == connections_for(meta_views(metas@)),
{
    let ghost all = meta_views(metas@);
    let mut shared = false;
    let mut dedicated: Vec<String> = Vec::new();
    assert(all.take(0) =~= Seq::<MetaView>::empty());
    assert(views(dedicated@) =~= Seq::<Seq<char>>::empty());
    let mut i: usize = 0;
    while i < metas.len()
        invariant
            i <= metas.len(),
            all == meta_views(metas@),
            shared == exists|j: int|
                0 <= j < i && (#[trigger] all[j]).manifest.isolation == Isolation::SharedPool,
            views(dedicated@) == dedicated_ids(all.take(i as int)),
        decreases metas.len() - i,
    {
        assert(all.take(i + 1).drop_last() =~= all.take(i as int));
        assert(all.take(i + 1).last() == metas@[i as int]@);
        assert(all[i as int] == metas@[i as int]@);
        match metas[i].manifest.isolation {
            Isolation::SharedPool => {
                shared = true;
            },
            Isolation::DedicatedProcess => {
                let ghost before = views(dedicated@);
                dedicated.push(metas[i].manifest.id.clone());
                assert(views(dedicated@) =~= before.push(metas@[i as int]@.manifest.id));
            },
        }
        i += 1;
    }
    assert(all.take(all.len() as int) =~= all);
    let mut r: Vec<String> = Vec::new();
    if shared {
        let pool = String::new();
        assert(pool@ =~= shared_pool());
        r.push(pool);
    }
    let ghost first = views(r@);
    assert(first =~= if any_shared(all) {
        seq![shared_pool()]
    } else {
        Seq::empty()
    });
    let ghost second = views(dedicated@);
    r.append(&mut dedicated);
    assert(views(r@) =~= first + second);
    r
}

impl PluginHost {
    /// Installs a set of plugins. Plugins are loaded when they are first
    /// called, never here.
    pub fn set_plugins(&mut self, metas: &Vec<PluginMeta>) -> (r: PluginSetChange)
        ensures
            final(self)@ == plugins_set(old(self)@, meta_views(metas@)),
            match r {
                PluginSetChange::Unchanged => same_plugins(old(self)@, meta_views(metas@)),
                PluginSetChange::Replace { stop, start } => {
                    &&& !same_plugins(old(self)@, meta_views(metas@))
                    &&& forall|k: Seq<char>|
                        views(stop@).contains(k) <==> old(self)@.conns.contains_key(k)
                    &&& views(stop@).no_duplicates()
                    &&& views(start@) == connections_for(meta_views(metas@))
                },
            },
    {
        let target = table_of(metas);
        let unchanged = all_within(&target, &self.loaded) && all_within(&self.loaded, &target);
        proof {
            let a = isolations(target@);
            let b = isolations(self.loaded@);
            if unchanged {
                assert forall|p: Seq<char>| a.contains_key(p) == b.contains_key(p) by {
                    assert(target@.contains_key(p) == self.loaded@.contains_key(p));
                }
                assert(a =~= b);
            } else if a == b {
                assert forall|p: Seq<char>| #[trigger] target@.contains_key(p) implies self.loaded@.contains_key(p)
                    && self.loaded@[p].manifest.isolation == target@[p].manifest.isolation by {
                    assert(a.contains_key(p));
                    assert(b.contains_key(p));
                    assert(a[p] == b[p]);
                }
                assert forall|p: Seq<char>| #[trigger] self.loaded@.contains_key(p) implies target@.contains_key(p)
                    && target@[p].manifest.isolation == self.loaded@[p].manifest.isolation by {
                    assert(b.contains_key(p));
                    assert(a.contains_key(p));
                    assert(a[p] == b[p]);
                }
            }
        }
        if unchanged {
            self.rebuild_routes(metas);
            return PluginSetChange::Unchanged;
        }
        let mut history: Vec<ClipboardEntry> = Vec::new();
        core::mem::swap(&mut history, &mut self.clipboard_history);
        let stop = self.shutdown();
        self.clipboard_history = history;
        self.loaded = target;
        PluginSetChange::Replace { stop, start: needed_connections(metas) }
    }
}

} // verus!
