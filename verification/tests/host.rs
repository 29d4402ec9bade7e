use std::time::Duration;

use steward::host::{
    backoff, Frame, HostConfig, HostEvent, PluginHost, PluginSetChange,
};
use steward::json::{object, text_value, Json, Number};
use steward::manifest::{
    Isolation, Permission, PluginCommand, PluginManifest, PluginMeta, Trigger, TriggerType,
};
use steward::protocol::{code, method, ClipboardEntry, Notification, Request, Response, RpcError};
use steward::route::RouteHit;

const MILLI: u128 = 1_000_000;

fn command(name: &str, title: &str, kind: TriggerType) -> PluginCommand {
    PluginCommand {
        name: name.into(),
        title: title.into(),
        trigger: Trigger { kind, value: None },
        detachable: false,
        keywords: Vec::new(),
    }
}

fn plugin(id: &str, isolation: Isolation, permissions: Vec<Permission>) -> PluginMeta {
    PluginMeta {
        manifest: PluginManifest {
            id: id.into(),
            name: id.into(),
            version: "1.0.0".into(),
            icon: None,
            fs_roots: Vec::new(),
            commands: vec![
                command("calendar", "Calendar", TriggerType::Command),
                command("search", "Search", TriggerType::Dynamic),
            ],
            permissions,
            isolation,
        },
        dir: format!("/plugins/{id}"),
        entry: format!("/plugins/{id}/dist/index.js"),
        icon: None,
        scanned_at: 0,
    }
}

fn host_with(backoff_ms: u64) -> PluginHost {
    PluginHost::new(HostConfig {
        runtime_bin: "steward-plugin-runtime".into(),
        base_backoff: Duration::from_millis(backoff_ms).as_nanos(),
        max_backoff: Duration::from_secs(2).as_nanos(),
    })
}

/// Installs plugins; every process starts where `starts`.
fn install(host: &mut PluginHost, metas: &Vec<PluginMeta>, starts: bool) -> bool {
    if let PluginSetChange::Replace { start, .. } = host.set_plugins(metas) {
        for key in start {
            if !host.conn_started(&key, starts) {
                return false;
            }
        }
        host.rebuild_routes(metas);
    }
    true
}

fn fields(pairs: Vec<(&str, Json)>) -> Json {
    object(pairs.into_iter().map(|(k, v)| (k.to_string(), v)).collect())
}

fn number(n: u64) -> Json {
    Json::Number(Number::Pos(n))
}

fn item(id: &str, title: &str) -> Json {
    fields(vec![("id", text_value(id)), ("title", text_value(title))])
}

/// What a calendar plugin sends back for a request.
fn calendar_frames(request: &Request) -> Vec<Frame> {
    let toast = |message: String, kind: &str| {
        Frame::Notification(Notification::new(
            method::TOAST_SHOW,
            fields(vec![("message", text_value(&message)), ("kind", text_value(kind))]),
        ))
    };
    let answer = |result: Json| Frame::Response(Response::ok(request.id, result));
    match request.method.as_str() {
        method::PLUGIN_LOAD => vec![answer(fields(vec![("isolate_id", number(40 + request.id))]))],
        method::COMMAND_INVOKE => {
            let input = request.params.get_str("input").unwrap();
            let mut frames = Vec::new();
            if input.contains("toast") {
                frames.push(toast("hello from calendar".into(), "success"));
            }
            frames.push(answer(fields(vec![(
                "view",
                fields(vec![
                    ("type", text_value("list")),
                    (
                        "items",
                        Json::Array(vec![item("today", "Today"), item("tomorrow", "Tomorrow")]),
                    ),
                ]),
            )])));
            frames
        }
        method::ITEM_INVOKE => {
            let id = request.params.get_str("item_id").unwrap();
            vec![toast(format!("selected {id}"), "info"), answer(fields(Vec::new()))]
        }
        _ => vec![answer(fields(Vec::new()))],
    }
}

/// Lets the runtime answer until nothing is left to send.
fn run(host: &mut PluginHost) -> Vec<HostEvent> {
    let mut events = Vec::new();
    loop {
        let outgoing = host.take_outgoing();
        if outgoing.is_empty() {
            return events;
        }
        for sent in outgoing {
            for frame in calendar_frames(&sent.request) {
                host.handle_frame(&sent.conn_key, frame, 0, &mut events);
            }
        }
    }
}

fn first_view(events: &[HostEvent], want: u64) -> &Json {
    events
        .iter()
        .find_map(|event| match event {
            HostEvent::CommandResult { gen, result: Ok(view), .. } if *gen == want => Some(view),
            _ => None,
        })
        .expect("expected a command result")
}

fn view_type(result: &Json) -> Option<String> {
    result.get("view").unwrap().get_str("type")
}

fn calendar_hit(host: &PluginHost, query: &str) -> RouteHit {
    host.query(query)
        .into_iter()
        .find(|hit| hit.command == "calendar")
        .expect("expected a calendar hit")
}

#[test]
fn backoff_doubles_and_caps() {
    let base = Duration::from_millis(500).as_nanos();
    let max = Duration::from_secs(30).as_nanos();
    assert_eq!(backoff(1, base, max), Duration::from_millis(500).as_nanos());
    assert_eq!(backoff(2, base, max), Duration::from_millis(1000).as_nanos());
    assert_eq!(backoff(3, base, max), Duration::from_millis(2000).as_nanos());
    assert_eq!(backoff(10, base, max), max);
}

#[test]
fn backoff_is_capped_by_the_bound_alone() {
    let bound = Duration::from_secs(10_000).as_nanos();
    assert_eq!(backoff(22, MILLI, bound), Duration::from_millis(2_097_152).as_nanos());
    assert_eq!(backoff(u32::MAX, MILLI, bound), bound);
    assert_eq!(backoff(u32::MAX, 1, u128::MAX), u128::MAX);
    assert_eq!(backoff(u32::MAX, 0, bound), 0);
    assert_eq!(backoff(0, MILLI, bound), MILLI);
    assert_eq!(backoff(1, bound + 1, bound), bound);
}

#[test]
fn shutdown_drops_all_state() {
    let meta = plugin("p", Isolation::SharedPool, vec![Permission::ClipboardHistory]);
    let mut host = host_with(100);
    install(&mut host, &vec![meta], true);
    host.set_clipboard_history(vec![ClipboardEntry {
        id: "1".into(),
        text: "copied".into(),
        copied_at: 100,
    }]);
    let hit = calendar_hit(&host, "calendar");
    assert!(host.route_count() > 0);
    assert_eq!(host.shutdown(), vec![String::new()]);
    assert_eq!(host.route_count(), 0);
    assert!(host.query("calendar").is_empty());
    assert!(host.query("").is_empty());
    assert!(host.clipboard_history().is_empty());
    assert!(host.invoke(1, &hit).is_none());
}

#[test]
fn new_plugins_keep_the_clipboard_history() {
    let mut host = host_with(100);
    host.set_clipboard_history(vec![ClipboardEntry {
        id: "1".into(),
        text: "copied".into(),
        copied_at: 100,
    }]);
    install(&mut host, &vec![plugin("p", Isolation::SharedPool, Vec::new())], true);
    assert_eq!(host.clipboard_history().len(), 1);
}

#[test]
fn route_and_invoke_shared_pool_plugin() {
    let meta =
        plugin("com.example.calendar", Isolation::SharedPool, vec![Permission::ClipboardWrite]);
    let mut host = host_with(100);
    assert!(install(&mut host, &vec![meta], true));

    let calendar = calendar_hit(&host, "calendar toast");
    assert_eq!(calendar.plugin_id, "com.example.calendar");
    assert_eq!(calendar.input, "calendar toast");
    assert_eq!(calendar.deadline_ms, 500);

    assert!(host.invoke(1, &calendar).is_some());
    let events = run(&mut host);
    let result = first_view(&events, 1);
    assert_eq!(view_type(result).as_deref(), Some("list"));
    let items = result.get("view").unwrap().get_array("items").unwrap();
    assert_eq!(items[0].get_str("title").as_deref(), Some("Today"));
    assert_eq!(items[1].get_str("id").as_deref(), Some("tomorrow"));

    // The toast notification the plugin emitted rides the same drain.
    let toast = events
        .iter()
        .find_map(|event| match event {
            HostEvent::Toast { params } => Some(params),
            _ => None,
        })
        .expect("expected the toast notification");
    assert_eq!(toast.get_str("message").as_deref(), Some("hello from calendar"));
    assert_eq!(toast.get_str("kind").as_deref(), Some("success"));

    // Non-matching queries wake no static plugin route (only the dynamic one).
    assert!(!host.query("zzz does not match").iter().any(|hit| hit.command == "calendar"));
    // Dynamic routes participate in any query with the short deadline.
    let dynamic = host.query("anything");
    assert!(dynamic.iter().any(|hit| hit.command == "search" && hit.deadline_ms == 100));
}

#[test]
fn responses_carry_their_query_generation() {
    let meta = plugin("com.example.calendar", Isolation::SharedPool, Vec::new());
    let mut host = host_with(100);
    install(&mut host, &vec![meta], true);

    let hit = calendar_hit(&host, "calendar");
    assert!(host.invoke(1, &hit).is_some());
    let first = run(&mut host);
    assert!(first.iter().any(|event| matches!(event, HostEvent::CommandResult { gen: 1, .. })));
    assert!(host.invoke(2, &hit).is_some());
    let second = run(&mut host);
    assert!(second.iter().any(|event| matches!(event, HostEvent::CommandResult { gen: 2, .. })));
}

#[test]
fn crash_is_detected_and_runtime_restarts() {
    let meta = plugin("com.example.calendar", Isolation::SharedPool, Vec::new());
    let mut host = host_with(100);
    install(&mut host, &vec![meta], true);
    let hit = calendar_hit(&host, "calendar");
    host.invoke(1, &hit);
    let events = run(&mut host);
    assert!(events
        .iter()
        .any(|event| matches!(event, HostEvent::CommandResult { result: Ok(_), .. })));

    // The runtime dies under the host.
    let mut events = Vec::new();
    host.handle_frame("", Frame::Eof, 0, &mut events);
    assert!(matches!(events[0], HostEvent::RuntimeCrashed { plugin_id: None }));
    assert!(host.invoke(2, &hit).is_none());
    assert!(host.can_put_off("", 0));
    assert!(!host.can_put_off("", u128::MAX));

    // The first restart is due after 100 ms, not before.
    assert!(host.due_restarts(99 * MILLI).is_empty());
    assert_eq!(host.due_restarts(100 * MILLI), vec![String::new()]);
    // One that fails is tried again after twice the time.
    assert!(host.try_restart("", false, 100 * MILLI).is_none());
    assert!(host.due_restarts(299 * MILLI).is_empty());
    assert_eq!(host.due_restarts(300 * MILLI), vec![String::new()]);
    assert!(matches!(
        host.try_restart("", true, 300 * MILLI),
        Some(HostEvent::RuntimeRestarted { plugin_id: None })
    ));

    // The plugin is reloaded into the fresh process and answers again.
    host.invoke(2, &hit);
    let events = run(&mut host);
    assert_eq!(view_type(first_view(&events, 2)).as_deref(), Some("list"));
}

#[test]
fn dedicated_process_plugin_runs_isolated() {
    let meta = plugin("com.example.dedicated", Isolation::DedicatedProcess, Vec::new());
    let mut host = host_with(100);
    match host.set_plugins(&vec![plugin(
        "com.example.dedicated",
        Isolation::DedicatedProcess,
        Vec::new(),
    )]) {
        PluginSetChange::Replace { stop, start } => {
            assert!(stop.is_empty());
            assert_eq!(start, vec!["com.example.dedicated".to_string()]);
        }
        other => panic!("unexpected {other:?}"),
    }
    assert!(host.conn_started("com.example.dedicated", true));
    host.rebuild_routes(&vec![meta]);

    let hit = calendar_hit(&host, "calendar");
    host.invoke(1, &hit);
    let sent = host.take_outgoing();
    assert_eq!(sent[0].conn_key, "com.example.dedicated");
    let mut events = Vec::new();
    for frame in calendar_frames(&sent[0].request) {
        host.handle_frame("com.example.dedicated", frame, 0, &mut events);
    }
    events.extend(run(&mut host));
    assert_eq!(view_type(first_view(&events, 1)).as_deref(), Some("list"));
}

#[test]
fn set_plugins_is_idempotent_for_unchanged_set() {
    let metas = vec![plugin("com.example.calendar", Isolation::SharedPool, Vec::new())];
    let mut host = host_with(100);
    assert!(install(&mut host, &metas, true));
    assert!(matches!(host.set_plugins(&metas), PluginSetChange::Unchanged));
    assert!(host.route_count() >= 2);
    assert!(host.query("calendar").iter().any(|hit| hit.command == "calendar"));
}

#[test]
fn missing_runtime_binary_is_reported() {
    let meta = plugin("com.example.calendar", Isolation::SharedPool, Vec::new());
    let mut host = PluginHost::new(HostConfig {
        runtime_bin: "definitely-not-a-real-binary".into(),
        base_backoff: Duration::from_millis(100).as_nanos(),
        max_backoff: Duration::from_secs(2).as_nanos(),
    });
    assert!(!install(&mut host, &vec![meta], false));
    // The host degrades gracefully: no routes, no events.
    assert!(host.query("calendar").is_empty());
    assert!(run(&mut host).is_empty());
}

#[test]
fn item_invoke_reaches_select_handler() {
    let meta = plugin("com.example.calendar", Isolation::SharedPool, Vec::new());
    let mut host = host_with(100);
    install(&mut host, &vec![meta], true);
    let hit = calendar_hit(&host, "calendar");
    host.invoke(1, &hit);
    run(&mut host);

    assert!(host.invoke_item("com.example.calendar", "calendar", "today").is_some());
    let events = run(&mut host);
    assert!(events.iter().any(|event| matches!(event, HostEvent::Toast { params }
        if params.get_str("message").as_deref() == Some("selected today"))));
}

#[test]
fn arbitrary_index_plugin_is_available_at_scale() {
    let metas: Vec<PluginMeta> = (0..100)
        .map(|i| plugin(&format!("com.example.p{i}"), Isolation::SharedPool, Vec::new()))
        .collect();
    let mut host = host_with(100);
    install(&mut host, &metas, true);
    for i in [0, 50, 75, 99] {
        let hit = RouteHit {
            plugin_id: format!("com.example.p{i}"),
            command: "calendar".into(),
            title: "Calendar".into(),
            input: "calendar".into(),
            deadline_ms: 500,
            detachable: false,
        };
        assert_eq!(host.invoke(i, &hit), Some(0));
        // Only the plugin that was called is loaded.
        let sent = host.take_outgoing();
        assert_eq!(sent.len(), 1);
        assert_eq!(sent[0].request.params.get_str("id"), Some(format!("com.example.p{i}")));
        let mut events = Vec::new();
        for frame in calendar_frames(&sent[0].request) {
            host.handle_frame("", frame, 0, &mut events);
        }
        events.extend(run(&mut host));
        assert_eq!(view_type(first_view(&events, i)).as_deref(), Some("list"));
    }
}

#[test]
fn waiting_calls_go_out_in_order() {
    let meta = plugin("p", Isolation::SharedPool, Vec::new());
    let mut host = host_with(100);
    install(&mut host, &vec![meta], true);
    assert_eq!(host.invoke_item("p", "calendar", "a"), Some(0));
    assert_eq!(host.invoke_action("p", "copy", Some("a")), Some(0));
    assert_eq!(host.invoke_submit("p", &fields(vec![("x", number(1))])), Some(0));
    assert_eq!(host.invoke_search(3, "p", "calendar", "q"), Some(0));
    let load = host.take_outgoing();
    assert_eq!(load.len(), 1);
    assert_eq!(load[0].request.method, method::PLUGIN_LOAD);
    let mut events = Vec::new();
    host.handle_frame(
        "",
        Frame::Response(Response::ok(
            load[0].request.id,
            fields(vec![("isolate_id", number(9))]),
        )),
        0,
        &mut events,
    );
    let sent = host.take_outgoing();
    let methods: Vec<&str> = sent.iter().map(|o| o.request.method.as_str()).collect();
    assert_eq!(
        methods,
        [method::ITEM_INVOKE, method::ACTION_INVOKE, method::FORM_SUBMIT, method::SEARCH_QUERY]
    );
    assert!(sent.iter().all(|o| o.request.params.get_u64("isolate_id") == Some(9)));
    // A loaded plugin is called at once.
    assert!(matches!(host.invoke_item("p", "calendar", "b"), Some(id) if id > 0));
}

#[test]
fn failed_load_fails_every_waiting_call() {
    let meta = plugin("p", Isolation::SharedPool, Vec::new());
    let mut host = host_with(100);
    install(&mut host, &vec![meta], true);
    let hit = calendar_hit(&host, "calendar");
    host.invoke(5, &hit);
    host.invoke_item("p", "calendar", "a");
    let load = host.take_outgoing();
    let mut events = Vec::new();
    host.handle_frame(
        "",
        Frame::Response(Response::error(
            load[0].request.id,
            RpcError::new(code::INTERNAL_ERROR, "boom"),
        )),
        0,
        &mut events,
    );
    assert_eq!(events.len(), 2);
    assert!(matches!(&events[0], HostEvent::CommandResult { gen: 5, result: Err(e), .. }
        if e.message == "boom"));
    assert!(matches!(&events[1], HostEvent::Toast { params }
        if params.get_str("message").as_deref() == Some("p (a): boom")));
}

#[test]
fn lost_isolate_is_loaded_again() {
    let meta = plugin("p", Isolation::SharedPool, Vec::new());
    let mut host = host_with(100);
    install(&mut host, &vec![meta], true);
    host.invoke_item("p", "calendar", "a");
    run(&mut host);
    let id = host.invoke_item("p", "calendar", "b").unwrap();
    host.take_outgoing();
    let mut events = Vec::new();
    let gone = Response::error(id, RpcError::new(code::PLUGIN_NOT_FOUND, "gone"));
    host.handle_frame("", Frame::Response(gone), 0, &mut events);
    assert!(events.is_empty());
    let events = run(&mut host);
    assert!(events.iter().any(|event| matches!(event, HostEvent::Toast { params }
        if params.get_str("message").as_deref() == Some("selected b"))));
    // A second response to the same request changes nothing.
    let again = Response::error(id, RpcError::new(code::PLUGIN_NOT_FOUND, "gone"));
    let mut events = Vec::new();
    host.handle_frame("", Frame::Response(again), 0, &mut events);
    assert!(events.is_empty() && host.take_outgoing().is_empty());
}

#[test]
fn clipboard_history_needs_the_permission() {
    let metas = vec![
        plugin("yes", Isolation::SharedPool, vec![Permission::ClipboardHistory]),
        plugin("no", Isolation::SharedPool, Vec::new()),
    ];
    let mut host = host_with(100);
    install(&mut host, &metas, true);
    host.set_clipboard_history(vec![ClipboardEntry {
        id: "1".into(),
        text: "copied".into(),
        copied_at: 100,
    }]);
    for (id, allowed) in [("yes", true), ("no", false)] {
        let mut hit = calendar_hit(&host, "calendar");
        hit.plugin_id = id.into();
        host.invoke_item(id, "calendar", "a");
        run(&mut host);
        host.invoke(1, &hit);
        let sent = host.take_outgoing();
        let history = sent[0].request.params.get_array("clipboard_history");
        assert_eq!(history.is_some(), allowed);
        if let Some(entries) = history {
            assert_eq!(entries[0].get_str("text").as_deref(), Some("copied"));
        }
    }
}

#[test]
fn request_that_was_not_sent_is_forgotten() {
    let meta = plugin("p", Isolation::SharedPool, Vec::new());
    let mut host = host_with(100);
    install(&mut host, &vec![meta], true);
    host.invoke_item("p", "calendar", "a");
    let load = host.take_outgoing();
    host.send_failed(load[0].request.id);
    // The next call tries to load the plugin again.
    host.invoke_item("p", "calendar", "b");
    let sent = host.take_outgoing();
    assert_eq!(sent.len(), 1);
    assert_eq!(sent[0].request.method, method::PLUGIN_LOAD);
    assert!(host.has_ids_left());
    assert_eq!(host.shutdown(), vec![String::new()]);
    assert!(host.invoke_item("p", "calendar", "c").is_none());
    assert_eq!(host.runtime_bin(), "steward-plugin-runtime");
}
