//! What holds of the plugin host over any run.

use vstd::prelude::*;

use crate::host::{
    all_dispatched, backoff_delay, call_params, called, conn_key, crashed, dispatched, enqueued,
    failure, flushed, gone_stale, has_isolate, ids_left, load_ensured, may_read_history,
    metas_by_id, plugins_set, power, queue_failed, received, responded, restarted, same_plugins,
    served_by, shut_down, unsent, waiting, CallView, EventView, FrameView, HostState, PendingView,
};
use crate::json::lemma_find_at;
use crate::manifest::MetaView;
use crate::order::falling_order_exists;
use crate::protocol::{history_json, ErrorView, ResponseView};
use crate::route::{command_hits, query_hits, scored_commands, scores, RouteView};
use crate::text::trimmed;

verus! {

/// What holds of a host at all times: request ids start at 1 and are never used
/// again, calls wait under their own plugin, installed plugins are found under
/// their own id, and a plugin counts as being loaded exactly while the request
/// to load it is unanswered.
pub open spec fn sound(st: HostState) -> bool {
    &&& st.next_id >= 1
    &&& forall|id: u64| #[trigger] st.pending.contains_key(id) ==> 1 <= id < st.next_id
    &&& forall|p: Seq<char>, i: int|
        st.queued.contains_key(p) && 0 <= i < st.queued[p].len() ==> (
        #[trigger] st.queued[p][i]).plugin() == p
    &&& forall|p: Seq<char>| #[trigger] st.loaded.contains_key(p) ==> st.loaded[p].manifest.id == p
    &&& forall|p: Seq<char>| #[trigger]
        st.loading.contains_key(p) ==> st.pending.contains_key(st.loading[p])
            && st.pending[st.loading[p]] == (PendingView::Load { plugin_id: p })
    &&& forall|id: u64| #[trigger]
        st.pending.contains_key(id) ==> (st.pending[id] matches PendingView::Load { plugin_id: p }
            ==> st.loading.contains_key(p) && st.loading[p] == id)
}

proof fn lemma_dispatched(st: HostState, key: Seq<char>, call: CallView)
    requires
        sound(st),
        st.next_id < u64::MAX,
    ensures
        sound(dispatched(st, key, call)),
{
}

proof fn lemma_load_ensured(st: HostState, key: Seq<char>, p: Seq<char>)
    requires
        sound(st),
        st.next_id < u64::MAX,
    ensures
        sound(load_ensured(st, key, p)),
        load_ensured(st, key, p).queued == st.queued,
{
    let next = load_ensured(st, key, p);
    if next != st {
        let meta = st.loaded[p];
        assert(meta.manifest.id == p);
        assert forall|id: u64| #[trigger] next.pending.contains_key(id) implies (
        next.pending[id] matches PendingView::Load { plugin_id: q } ==> next.loading.contains_key(q)
            && next.loading[q] == id) by {
            if id != st.next_id {
                assert(st.pending.contains_key(id));
            }
        }
    }
}

proof fn lemma_enqueued(st: HostState, call: CallView)
    requires
        sound(st),
    ensures
        sound(enqueued(st, call)),
{
    let next = enqueued(st, call);
    assert forall|p: Seq<char>, i: int|
        next.queued.contains_key(p) && 0 <= i < next.queued[p].len() implies (
    #[trigger] next.queued[p][i]).plugin() == p by {
        if p == call.plugin() {
            if i < waiting(st, p).len() {
                assert(next.queued[p][i] == st.queued[p][i]);
            }
        } else {
            assert(st.queued.contains_key(p));
            assert(next.queued[p][i] == st.queued[p][i]);
        }
    }
}

/// Whatever is called, the host stays sound.
pub proof fn calls_keep_the_host_sound(st: HostState, call: CallView)
    requires
        sound(st),
        st.next_id < u64::MAX,
    ensures
        sound(called(st, call).0),
{
    let key = conn_key(st, call.plugin());
    lemma_dispatched(st, key, call);
    lemma_enqueued(st, call);
    lemma_load_ensured(enqueued(st, call), key, call.plugin());
}

proof fn lemma_all_dispatched(st: HostState, key: Seq<char>, calls: Seq<CallView>, n: int)
    requires
        sound(st),
        0 <= n <= calls.len(),
        st.next_id + n <= u64::MAX,
    ensures
        sound(all_dispatched(st, key, calls, n)),
        all_dispatched(st, key, calls, n).next_id <= st.next_id + n,
        all_dispatched(st, key, calls, n).next_id >= st.next_id,
        all_dispatched(st, key, calls, n).queued == st.queued,
        all_dispatched(st, key, calls, n).conns == st.conns,
        all_dispatched(st, key, calls, n).loaded == st.loaded,
        all_dispatched(st, key, calls, n).loading == st.loading,
        forall|id: u64|
            id < st.next_id ==> (#[trigger] all_dispatched(st, key, calls, n).pending.contains_key(
                id,
            ) <==> st.pending.contains_key(id)),
    decreases n,
{
    if n > 0 {
        lemma_all_dispatched(st, key, calls, n - 1);
        lemma_dispatched(all_dispatched(st, key, calls, n - 1), key, calls[n - 1]);
    }
}

proof fn lemma_gone_stale(st: HostState, key: Seq<char>, call: CallView, error: ErrorView)
    requires
        sound(st),
        st.next_id < u64::MAX,
    ensures
        sound(gone_stale(st, key, call, error).0),
        gone_stale(st, key, call, error).0.next_id >= st.next_id,
        forall|id: u64|
            id < st.next_id ==> (#[trigger] gone_stale(st, key, call, error).0.pending.contains_key(id)
                <==> st.pending.contains_key(id)),
{
    let p = call.plugin();
    let st1 = if st.conns.contains_key(key) {
        HostState { conns: st.conns.insert(key, st.conns[key].remove(p)), ..st }
    } else {
        st
    };
    assert(sound(st1));
    lemma_enqueued(st1, call);
    lemma_load_ensured(st1, key, p);
    lemma_enqueued(load_ensured(st1, key, p), call);
}

/// The state without the request that a response answers.
spec fn answered(st: HostState, id: u64) -> HostState {
    let rest = HostState { pending: st.pending.remove(id), ..st };
    match st.pending[id] {
        PendingView::Load { plugin_id } => HostState {
            loading: st.loading.remove(plugin_id),
            ..rest
        },
        PendingView::Call(_) => rest,
    }
}

proof fn lemma_answered(st: HostState, id: u64)
    requires
        sound(st),
        st.pending.contains_key(id),
    ensures
        sound(answered(st, id)),
{
    let next = answered(st, id);
    assert forall|p: Seq<char>| #[trigger] next.loading.contains_key(p) implies next.pending.contains_key(
        next.loading[p],
    ) && next.pending[next.loading[p]] == (PendingView::Load { plugin_id: p }) by {
        assert(st.loading.contains_key(p));
        if next.loading[p] == id {
            assert(st.pending[id] == (PendingView::Load { plugin_id: p }));
        }
    }
    assert forall|k: u64| #[trigger] next.pending.contains_key(k) implies (
    next.pending[k] matches PendingView::Load { plugin_id: q } ==> next.loading.contains_key(q)
        && next.loading[q] == k) by {
        assert(st.pending.contains_key(k));
    }
}

proof fn lemma_without_queue(st: HostState, p: Seq<char>)
    requires
        sound(st),
    ensures
        sound(HostState { queued: st.queued.remove(p), ..st }),
{
    let next = HostState { queued: st.queued.remove(p), ..st };
    assert forall|q: Seq<char>, i: int|
        next.queued.contains_key(q) && 0 <= i < next.queued[q].len() implies (
    #[trigger] next.queued[q][i]).plugin() == q by {
        assert(st.queued.contains_key(q));
        assert(next.queued[q][i] == st.queued[q][i]);
    }
}

/// Whatever response comes, the host stays sound, and the request that was
/// answered is not pending any more: each is answered at most once.
pub proof fn responses_keep_the_host_sound(st: HostState, key: Seq<char>, response: ResponseView)
    requires
        sound(st),
        ids_left(st),
    ensures
        sound(responded(st, key, response).0),
        !responded(st, key, response).0.pending.contains_key(response.id),
{
    if st.pending.contains_key(response.id) {
        lemma_answered(st, response.id);
        let rest = answered(st, response.id);
        match st.pending[response.id] {
            PendingView::Load { plugin_id } => {
                lemma_without_queue(rest, plugin_id);
                match crate::host::loaded_isolate(response) {
                    Some(isolate_id) => {
                        let there = if st.conns.contains_key(key) {
                            HostState {
                                conns: st.conns.insert(
                                    key,
                                    st.conns[key].insert(plugin_id, isolate_id),
                                ),
                                ..rest
                            }
                        } else {
                            rest
                        };
                        let calls = waiting(there, plugin_id);
                        if st.queued.contains_key(plugin_id) {
                            assert(calls == st.queued[plugin_id]);
                        }
                        lemma_without_queue(there, plugin_id);
                        lemma_all_dispatched(
                            HostState { queued: there.queued.remove(plugin_id), ..there },
                            key,
                            calls,
                            calls.len() as int,
                        );
                    },
                    None => {},
                }
            },
            PendingView::Call(call) => {
                lemma_gone_stale(rest, key, call, response.error->0);
            },
        }
    }
}

/// A response to a request that was answered before changes nothing and tells nothing.
pub proof fn second_response_is_ignored(
    st: HostState,
    key: Seq<char>,
    response: ResponseView,
    later_key: Seq<char>,
    later: ResponseView,
)
    requires
        sound(st),
        ids_left(st),
        later.id == response.id,
    ensures
        ({
            let then = responded(st, key, response).0;
            responded(then, later_key, later) == (then, Seq::<EventView>::empty())
        }),
{
    responses_keep_the_host_sound(st, key, response);
}

/// When a process dies the host stays sound: nothing is pending, waiting or
/// being loaded any more for the plugins of that connection, everything else
/// is as it was, and so are the installed plugins.
pub proof fn crash_forgets_one_connection(st: HostState, key: Seq<char>, now: u128)
    requires
        sound(st),
        st.conns.contains_key(key),
    ensures
        ({
            let next = crashed(st, key, now).0;
            &&& sound(next)
            &&& !next.conns.contains_key(key)
            &&& next.restarts.contains_key(key)
            &&& next.loaded == st.loaded
            &&& forall|id: u64| #[trigger]
                next.pending.contains_key(id) <==> st.pending.contains_key(id) && !served_by(
                    st,
                    key,
                    st.pending[id].plugin(),
                )
            &&& forall|p: Seq<char>| #[trigger]
                next.queued.contains_key(p) <==> st.queued.contains_key(p) && !served_by(st, key, p)
            &&& forall|p: Seq<char>| #[trigger]
                next.loading.contains_key(p) <==> st.loading.contains_key(p) && !served_by(
                    st,
                    key,
                    p,
                )
        }),
{
    let next = crashed(st, key, now).0;
    let cut = HostState { conns: st.conns.remove(key), ..st };
    assert forall|p: Seq<char>| served_by(cut, key, p) == served_by(st, key, p) by {}
    assert forall|p: Seq<char>, i: int|
        next.queued.contains_key(p) && 0 <= i < next.queued[p].len() implies (
    #[trigger] next.queued[p][i]).plugin() == p by {
        assert(st.queued.contains_key(p));
        assert(next.queued[p][i] == st.queued[p][i]);
    }
    assert forall|p: Seq<char>| #[trigger] next.loading.contains_key(p) implies next.pending.contains_key(
        next.loading[p],
    ) && next.pending[next.loading[p]] == (PendingView::Load { plugin_id: p }) by {
        assert(st.loading.contains_key(p));
    }
    assert forall|id: u64| #[trigger] next.pending.contains_key(id) implies (
    next.pending[id] matches PendingView::Load { plugin_id: q } ==> next.loading.contains_key(q)
        && next.loading[q] == id) by {
        assert(st.pending.contains_key(id));
    }
}

/// Whatever frame comes, the host stays sound.
pub proof fn frames_keep_the_host_sound(st: HostState, key: Seq<char>, frame: FrameView, now: u128)
    requires
        sound(st),
        ids_left(st),
    ensures
        sound(received(st, key, frame, now).0),
{
    match frame {
        FrameView::Response(response) => {
            responses_keep_the_host_sound(st, key, response);
        },
        FrameView::Notification(n) => {},
        FrameView::Eof => {
            if st.conns.contains_key(key) {
                crash_forgets_one_connection(st, key, now);
            }
        },
    }
}

/// Restarts, and requests that could not be sent, keep the host sound.
pub proof fn upkeep_keeps_the_host_sound(
    st: HostState,
    key: Seq<char>,
    started: bool,
    now: u128,
    id: u64,
)
    requires
        sound(st),
    ensures
        sound(restarted(st, key, started, now).0),
        sound(unsent(st, id)),
        !unsent(st, id).pending.contains_key(id),
{
    if st.pending.contains_key(id) {
        lemma_answered(st, id);
        assert(unsent(st, id) == answered(st, id));
    }
}

proof fn lemma_metas_by_id(metas: Seq<MetaView>)
    ensures
        forall|p: Seq<char>| #[trigger]
            metas_by_id(metas).contains_key(p) ==> metas_by_id(metas)[p].manifest.id == p,
    decreases metas.len(),
{
    if metas.len() > 0 {
        lemma_metas_by_id(metas.drop_last());
    }
}

/// Installing plugins keeps the host sound, and installing the same plugins
/// again leaves all connections and all that is under way as it is.
pub proof fn installing_again_changes_nothing_under_way(st: HostState, metas: Seq<MetaView>)
    requires
        sound(st),
    ensures
        sound(plugins_set(st, metas)),
        same_plugins(plugins_set(st, metas), metas),
        ({
            let once = plugins_set(st, metas);
            let twice = plugins_set(once, metas);
            twice == HostState { routes: twice.routes, ..once }
        }),
{
    lemma_metas_by_id(metas);
}

/// A host that was shut down reaches no plugin: no query has a hit, and no call
/// is made.
pub proof fn shut_down_host_reaches_nothing(st: HostState, query: Seq<char>, call: CallView)
    ensures
        query_hits(shut_down(st).routes, query).len() == 0,
        shut_down(st).routes.count() == 0,
        called(shut_down(st), call) == (shut_down(st), None::<u64>),
        sound(st) ==> sound(shut_down(st)),
{
    let routes = Seq::<RouteView>::empty();
    let q = trimmed(query);
    assert(scored_commands(routes, q).len() == 0);
    falling_order_exists(scores(scored_commands(routes, q)));
    assert(command_hits(routes, q).len() == 0);
}

/// Installing plugins loads none of them: nothing is sent, and no plugin is
/// being loaded that was not before.
pub proof fn installing_loads_nothing(st: HostState, metas: Seq<MetaView>)
    ensures
        ({
            let next = plugins_set(st, metas);
            &&& next.outbox == st.outbox || next.outbox.len() == 0
            &&& next.loading.submap_of(st.loading)
            &&& next.next_id == st.next_id
        }),
{
}

/// The clipboard history goes to plugins with the permission for it, with the
/// calls of their commands, and to no others.
pub proof fn history_needs_the_permission(st: HostState, isolate_id: u64, call: CallView)
    ensures
        call_params(st, isolate_id, call).field("clipboard_history"@) == (if call is Command
            && may_read_history(st, call.plugin()) {
            Some(history_json(st.history))
        } else {
            None
        }),
{
    reveal_strlit("clipboard_history");
    reveal_strlit("isolate_id");
    reveal_strlit("command");
    reveal_strlit("input");
    reveal_strlit("deadline_ms");
    reveal_strlit("item_id");
    reveal_strlit("action_id");
    reveal_strlit("values");
    reveal_strlit("query");
    let key = "clipboard_history"@;
    assert("isolate_id"@.len() == 10 && key.len() == 17);
    assert(key != "isolate_id"@ && key != "command"@ && key != "input"@ && key != "deadline_ms"@
        && key != "item_id"@ && key != "action_id"@ && key != "values"@ && key != "query"@);
    let fields = call_params(st, isolate_id, call)->Object_0;
    if call is Command && may_read_history(st, call.plugin()) {
        lemma_find_at(fields, key, 4);
    } else {
        lemma_find_at(fields, key, fields.len() as int);
    }
}

/// A call is answered by 0 exactly where it waits: a request that is sent has
/// an id of at least 1.
pub proof fn zero_means_waiting(st: HostState, call: CallView)
    requires
        sound(st),
    ensures
        called(st, call).1 == Some(0u64) <==> ({
            let key = conn_key(st, call.plugin());
            &&& st.conns.contains_key(key)
            &&& !has_isolate(st, key, call.plugin())
            &&& st.loaded.contains_key(call.plugin())
        }),
        called(st, call).1 == Some(0u64) ==> called(st, call).0.queued.contains_key(call.plugin())
            && called(st, call).0.queued[call.plugin()].last() == call,
        called(st, call).1 is None ==> called(st, call).0 == st,
{
    let key = conn_key(st, call.plugin());
    let e = enqueued(st, call);
    assert(e.queued[call.plugin()].last() == call);
}

proof fn lemma_sent_in_order(st: HostState, key: Seq<char>, calls: Seq<CallView>, n: int)
    requires
        0 <= n <= calls.len(),
        st.next_id + n <= u64::MAX,
        forall|i: int| 0 <= i < calls.len() ==> has_isolate(st, key, (#[trigger] calls[i]).plugin()),
    ensures
        ({
            let next = all_dispatched(st, key, calls, n);
            &&& next.next_id == st.next_id + n
            &&& next.conns == st.conns
            &&& next.queued == st.queued
            &&& next.outbox.len() == st.outbox.len() + n
            &&& next.outbox.take(st.outbox.len() as int) == st.outbox
            &&& forall|i: int|
                0 <= i < n ==> {
                    let out = #[trigger] next.outbox[st.outbox.len() + i];
                    &&& out.conn_key == key
                    &&& out.request.id == st.next_id + i
                    &&& out.request.method == calls[i].method()
                }
            &&& forall|i: int|
                0 <= i < n ==> {
                    &&& next.pending.contains_key((st.next_id + i) as u64)
                    &&& next.pending[(st.next_id + i) as u64] == PendingView::Call(
                        #[trigger] calls[i],
                    )
                }
        }),
    decreases n,
{
    if n == 0 {
        assert(st.outbox.take(st.outbox.len() as int) =~= st.outbox);
    } else {
        lemma_sent_in_order(st, key, calls, n - 1);
        let before = all_dispatched(st, key, calls, n - 1);
        let next = all_dispatched(st, key, calls, n);
        assert(has_isolate(st, key, calls[n - 1].plugin()));
        assert(next == dispatched(before, key, calls[n - 1]));
        assert(next.outbox.take(st.outbox.len() as int) =~= before.outbox.take(
            st.outbox.len() as int,
        ));
        assert forall|i: int| 0 <= i < n implies {
            let out = #[trigger] next.outbox[st.outbox.len() + i];
            &&& out.conn_key == key
            &&& out.request.id == st.next_id + i
            &&& out.request.method == calls[i].method()
        } by {
            if i < n - 1 {
                assert(next.outbox[st.outbox.len() + i] == before.outbox[st.outbox.len() + i]);
            }
        }
    }
}

/// Once a plugin is loaded, the calls that waited for it are sent in the order
/// in which they came, under consecutive request ids, and none waits any more.
pub proof fn waiting_calls_are_sent_in_order(st: HostState, key: Seq<char>, plugin_id: Seq<char>)
    requires
        sound(st),
        has_isolate(st, key, plugin_id),
        st.next_id + waiting(st, plugin_id).len() <= u64::MAX,
    ensures
        ({
            let calls = waiting(st, plugin_id);
            let next = flushed(st, key, plugin_id);
            &&& !next.queued.contains_key(plugin_id)
            &&& next.next_id == st.next_id + calls.len()
            &&& next.outbox.len() == st.outbox.len() + calls.len()
            &&& forall|i: int|
                0 <= i < calls.len() ==> {
                    let out = #[trigger] next.outbox[st.outbox.len() + i];
                    &&& out.conn_key == key
                    &&& out.request.id == st.next_id + i
                    &&& out.request.method == calls[i].method()
                }
            &&& forall|i: int|
                0 <= i < calls.len() ==> {
                    &&& next.pending.contains_key((st.next_id + i) as u64)
                    &&& next.pending[(st.next_id + i) as u64] == PendingView::Call(
                        #[trigger] calls[i],
                    )
                }
        }),
{
    let calls = waiting(st, plugin_id);
    let start = HostState { queued: st.queued.remove(plugin_id), ..st };
    assert forall|i: int| 0 <= i < calls.len() implies has_isolate(
        start,
        key,
        (#[trigger] calls[i]).plugin(),
    ) by {
        assert(st.queued[plugin_id][i].plugin() == plugin_id);
    }
    lemma_sent_in_order(start, key, calls, calls.len() as int);
}

/// Where loading a plugin fails, every call that waited for it is told, in the
/// order in which they came, and none waits any more.
pub proof fn failed_load_tells_every_call(st: HostState, plugin_id: Seq<char>, error: ErrorView)
    ensures
        ({
            let calls = waiting(st, plugin_id);
            let (next, events) = queue_failed(st, plugin_id, error);
            &&& !next.queued.contains_key(plugin_id)
            &&& events.len() == calls.len()
            &&& forall|i: int|
                0 <= i < calls.len() ==> #[trigger] events[i] == failure(calls[i], error)
        }),
{
}

proof fn lemma_power_grows(n: nat)
    ensures
        power(n + 1) == 2 * power(n),
        power(n) >= 1,
    decreases n,
{
    if n > 0 {
        lemma_power_grows((n - 1) as nat);
    }
}

/// The restart delay starts at the base delay, doubles with each further attempt,
/// and never exceeds the bound.
pub proof fn backoff_doubles_up_to_the_bound(attempts: int, base: int, max: int)
    requires
        1 <= attempts,
        0 <= base,
        0 <= max,
    ensures
        backoff_delay(attempts, base, max) <= max,
        backoff_delay(1, base, max) == if base <= max {
            base
        } else {
            max
        },
        backoff_delay(attempts + 1, base, max) == ({
            let twice = 2 * backoff_delay(attempts, base, max);
            if twice <= max {
                twice
            } else {
                max
            }
        }),
        backoff_delay(attempts, base, max) <= backoff_delay(attempts + 1, base, max),
{
    assert(base * power(0) == base) by (nonlinear_arith)
        requires
            power(0) == 1,
    ;
    let n = (attempts - 1) as nat;
    lemma_power_grows(n);
    assert(base * power(n + 1) == 2 * (base * power(n))) by (nonlinear_arith)
        requires
            power(n + 1) == 2 * power(n),
    ;
    assert(base * power(n) >= 0) by (nonlinear_arith)
        requires
            base >= 0,
    ;
}

} // verus!
