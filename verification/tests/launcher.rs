use steward::engine::AppEntry;
use steward::host::{HostEvent, QueuedCall};
use steward::hotkeys::HotkeyField;
use steward::json::{object, text_value, Json};
use steward::launcher::{
    single_line, ConfirmAction, KeyEffect, Keystroke, Launcher, PanelEffect, LAUNCHER_HEIGHT,
    LAUNCHER_MARGIN,
};
use steward::protocol::RpcError;
use steward::results::{ResultItem, RESULT_ROW_HEIGHT};
use steward::route::RouteHit;

fn key(name: &str) -> Keystroke {
    Keystroke {
        key: name.into(),
        key_char: None,
        control: false,
        alt: false,
        shift: false,
        platform: false,
    }
}

fn typed(c: &str) -> Keystroke {
    Keystroke { key_char: Some(c.into()), ..key(c) }
}

fn control(name: &str) -> Keystroke {
    Keystroke { control: true, ..key(name) }
}

fn app(name: &str) -> AppEntry {
    AppEntry { name: name.into(), path: format!("C:/{name}.exe") }
}

fn hit(plugin_id: &str, command: &str, detachable: bool) -> RouteHit {
    RouteHit {
        plugin_id: plugin_id.into(),
        command: command.into(),
        title: format!("Title of {command}"),
        input: "query".into(),
        deadline_ms: 500,
        detachable,
    }
}

fn view(kind: &str) -> Json {
    object(vec![("type".to_string(), text_value(kind))])
}

fn result(gen: u64, plugin_id: &str, command: &str, answer: Result<Json, RpcError>) -> HostEvent {
    HostEvent::CommandResult {
        gen,
        plugin_id: plugin_id.into(),
        command: command.into(),
        result: answer,
    }
}

fn type_text(launcher: &mut Launcher, text: &str) {
    for c in text.chars() {
        let effect = launcher.handle_key(&typed(&c.to_string()), &None);
        assert!(matches!(effect, KeyEffect::Search));
    }
}

/// What a row is, and its title.
fn describe(row: &ResultItem) -> String {
    match row {
        ResultItem::App(app) => format!("app {}", app.name),
        ResultItem::Action { title, .. } => format!("action {title}"),
        ResultItem::Link { url, .. } => format!("link {url}"),
        ResultItem::Plugin { title, .. } => format!("plugin {title}"),
        ResultItem::Calendar { title, .. } => format!("calendar {title}"),
        ResultItem::Command { title, .. } => format!("command {title}"),
        ResultItem::Loading { command } => format!("loading {command}"),
    }
}

fn rows(launcher: &Launcher) -> Vec<String> {
    launcher.rows().iter().map(describe).collect()
}

#[test]
fn plugin_rows_stand_between_builtin_rows_and_apps() {
    let mut launcher = Launcher::new();
    type_text(&mut launcher, "1+2");
    launcher.begin_search(
        Some("3".into()),
        "Open",
        "Command",
        vec![app("One"), app("Two")],
        vec![hit("p", "first", false), hit("p", "second", false)],
    );
    launcher.mark_called(0);
    launcher.mark_called(1);
    launcher.render_merged("Command");
    assert_eq!(rows(&launcher), ["action 3", "loading first", "app One", "app Two"]);

    let effect = launcher.on_event(result(1, "p", "second", Ok(view("list"))));
    assert!(effect.rerender);
    launcher.render_merged("Command");
    assert_eq!(
        rows(&launcher),
        ["action 3", "loading first", "command Title of second", "app One", "app Two"]
    );
    assert_eq!(launcher.list().selected, Some(0));
    let height = LAUNCHER_HEIGHT + 2 * LAUNCHER_MARGIN + 5 * RESULT_ROW_HEIGHT;
    assert_eq!(launcher.height(), height);

    let failed =
        launcher.on_event(result(1, "p", "first", Err(RpcError::new(-32603, "no luck"))));
    assert!(failed.rerender);
    assert_eq!(
        failed.log.as_deref(),
        Some("[steward] plugin p command first failed: no luck (-32603)")
    );
    launcher.render_merged("Command");
    assert_eq!(
        rows(&launcher),
        ["action 3", "command Title of second", "app One", "app Two"]
    );
}

#[test]
fn addresses_get_a_row() {
    let mut launcher = Launcher::new();
    type_text(&mut launcher, "example.com");
    launcher.begin_search(None, "Open in Browser", "Command", Vec::new(), Vec::new());
    launcher.render_merged("Command");
    assert_eq!(launcher.rows().len(), 1);
    assert!(matches!(&launcher.rows()[0], ResultItem::Link { url, label, .. }
        if url == "https://example.com" && label == "Open in Browser"));
    let effect = launcher.confirm(0);
    assert!(effect.hides());
    assert!(matches!(effect, ConfirmAction::OpenUrl(url) if url == "https://example.com"));
}

#[test]
fn answers_to_earlier_queries_are_dropped() {
    let mut launcher = Launcher::new();
    let hits = || vec![hit("p", "cmd", false)];
    launcher.begin_search(None, "", "", Vec::new(), hits());
    launcher.begin_search(None, "", "", Vec::new(), hits());
    assert_eq!(launcher.plugin_gen(), 2);
    let stale = launcher.on_event(result(1, "p", "cmd", Ok(view("list"))));
    assert!(!stale.rerender);
    assert!(launcher.plugin_view("p", "cmd").is_none());
    let current = launcher.on_event(result(2, "p", "cmd", Ok(view("list"))));
    assert!(current.rerender);
    assert!(launcher.plugin_view("p", "cmd").is_some());
    let unknown = launcher.on_event(result(2, "p", "other", Ok(view("list"))));
    assert!(!unknown.rerender);
}

#[test]
fn eight_plugin_commands_take_part() {
    let mut launcher = Launcher::new();
    let hits = (0..12).map(|i| hit("p", &format!("c{i}"), false)).collect();
    launcher.begin_search(None, "", "", Vec::new(), hits);
    assert_eq!(launcher.hits().len(), 8);
}

#[test]
fn only_one_view_can_be_popped_out() {
    let mut launcher = Launcher::new();
    launcher.begin_search(
        None,
        "",
        "",
        Vec::new(),
        vec![hit("p", "a", true), hit("p", "b", true), hit("p", "c", false)],
    );
    for (command, want) in [("c", None), ("a", Some(("p", "a"))), ("b", None)] {
        launcher.on_event(result(1, "p", command, Ok(view("list"))));
        launcher.render_merged("Command");
        let want = want.map(|(p, c): (&str, &str)| (p.to_string(), c.to_string()));
        assert_eq!(launcher.target(), &want);
    }
}

#[test]
fn confirming_a_command_opens_its_view() {
    let mut launcher = Launcher::new();
    launcher.begin_search(None, "", "", vec![app("One")], vec![hit("p", "cmd", true)]);
    launcher.on_event(result(1, "p", "cmd", Ok(view("list"))));
    launcher.render_merged("Command");
    assert_eq!(rows(&launcher), ["command Title of cmd", "app One"]);
    match launcher.handle_key(&key("enter"), &None) {
        KeyEffect::ConfirmRow(0) => {}
        other => panic!("unexpected {other:?}"),
    }
    let open = launcher.confirm(0);
    assert!(!open.hides());
    assert!(matches!(open, ConfirmAction::OpenPanel { plugin_id, command, detachable: true, .. }
        if plugin_id == "p" && command == "cmd"));
    launcher.panel_opened("p", "cmd");
    assert!(launcher.plugin_window_open("p", "cmd"));
    assert!(launcher.panel_closed("p", "cmd"));
    assert!(!launcher.panel_closed("p", "cmd"));
    assert!(matches!(launcher.confirm(1), ConfirmAction::Launch(path) if path == "C:/One.exe"));
}

#[test]
fn keys_edit_the_query() {
    let mut launcher = Launcher::new();
    type_text(&mut launcher, "ab");
    assert!(matches!(launcher.handle_key(&key("space"), &None), KeyEffect::Search));
    assert_eq!(launcher.input().query, "ab ");
    launcher.handle_key(&key("left"), &None);
    launcher.handle_key(&key("backspace"), &None);
    assert_eq!(launcher.input().query, "a ");
    launcher.handle_key(&key("home"), &None);
    launcher.handle_key(&key("delete"), &None);
    assert_eq!(launcher.input().query, " ");
    launcher.handle_key(&key("end"), &None);
    launcher.paste("x\r\ny\n");
    assert_eq!(launcher.input().query, " x y ");
    assert!(matches!(launcher.handle_key(&control("a"), &None), KeyEffect::Redraw));
    assert!(matches!(launcher.handle_key(&control("c"), &None),
        KeyEffect::Copy(text) if text == " x y "));
    assert!(matches!(launcher.handle_key(&control("x"), &None),
        KeyEffect::Cut(text) if text == " x y "));
    assert_eq!(launcher.input().query, "");
    assert!(matches!(launcher.handle_key(&control("v"), &None), KeyEffect::Paste));
    let settings = Some(HotkeyField::Settings.default_hotkey());
    assert!(matches!(launcher.handle_key(&control(","), &settings), KeyEffect::OpenSettings));
    assert!(matches!(launcher.handle_key(&key("escape"), &None), KeyEffect::Hide));
    assert!(matches!(launcher.handle_key(&key("f9"), &None), KeyEffect::Ignored));
}

#[test]
fn input_method_has_the_keys_while_it_composes() {
    let mut launcher = Launcher::new();
    launcher.compose_text(None, "ni", None);
    assert!(matches!(launcher.handle_key(&key("enter"), &None), KeyEffect::Handled));
    assert_eq!(launcher.input().query, "ni");
    launcher.replace_text(None, "你");
    assert_eq!(launcher.input().query, "你");
    launcher.compose_text(None, "x", None);
    launcher.unmark_text();
    type_text(&mut launcher, "!");
    assert_eq!(launcher.input().query, "你x!");
}

#[test]
fn mouse_selects_text() {
    let mut launcher = Launcher::new();
    type_text(&mut launcher, "hello");
    launcher.begin_mouse_selection(4);
    launcher.update_mouse_selection(1);
    assert!(matches!(launcher.handle_key(&control("c"), &None),
        KeyEffect::Copy(text) if text == "ell"));
    launcher.end_mouse_selection();
    launcher.update_mouse_selection(5);
    assert!(matches!(launcher.handle_key(&control("x"), &None),
        KeyEffect::Cut(text) if text == "ell"));
    launcher.reset();
    assert_eq!(launcher.input().query, "");
}

#[test]
fn calendar_views_open_in_their_own_window() {
    let mut launcher = Launcher::new();
    launcher.begin_search(None, "", "", Vec::new(), vec![hit("p", "cal", true)]);
    let calendar = object(vec![
        ("type".to_string(), text_value("calendar")),
        ("year".to_string(), Json::Number(steward::json::Number::Pos(2026))),
        ("month".to_string(), Json::Number(steward::json::Number::Pos(8))),
        ("today".to_string(), text_value("2026-08-27")),
    ]);
    launcher.on_event(result(1, "p", "cal", Ok(calendar)));
    launcher.render_merged("Command");
    assert!(!launcher.shows_calendar());
    assert!(launcher.calendar().is_none());
    assert!(launcher.calendar_panel().is_none());
    assert!(!launcher.is_active_panel_detached());
    assert!(matches!(launcher.confirm(0), ConfirmAction::OpenPanel { .. }));
}

fn same_view(view: &Json, kind: &str) -> bool {
    view.get_str("type").as_deref() == Some(kind)
}

#[test]
fn item_views_replace_the_view_or_open_a_window() {
    let mut launcher = Launcher::new();
    launcher.begin_search(None, "", "", Vec::new(), vec![hit("p", "cmd", false)]);
    let event = |kind: &str| HostEvent::ItemView {
        plugin_id: "p".into(),
        command: "cmd".into(),
        item_id: "i".into(),
        view: view(kind),
    };
    let listed = launcher.on_event(event("list"));
    assert!(listed.rerender);
    assert!(matches!(listed.panel, PanelEffect::Nothing));
    assert!(launcher.plugin_view("p", "cmd").is_some_and(|v| same_view(&v, "list")));
    let open = launcher.on_event(event("detail"));
    assert!(open.rerender);
    assert!(matches!(open.panel, PanelEffect::Open { plugin_id, view, .. }
        if plugin_id == "p" && same_view(&view, "detail")));
    assert!(launcher.plugin_view("p", "cmd").is_some_and(|v| same_view(&v, "detail")));
    launcher.on_event(event("form"));
    assert!(launcher.plugin_view("p", "cmd").is_some_and(|v| same_view(&v, "form")));
    let unknown = launcher.on_event(HostEvent::ItemView {
        plugin_id: "q".into(),
        command: "cmd".into(),
        item_id: "i".into(),
        view: view("list"),
    });
    assert_eq!(
        unknown.log.as_deref(),
        Some("[steward] item i returned a view for an unknown command q/cmd")
    );
}

#[test]
fn search_results_go_to_their_window() {
    let mut launcher = Launcher::new();
    let event = |gen: u64| HostEvent::SearchResult {
        gen,
        plugin_id: "p".into(),
        command: "cmd".into(),
        query: "q".into(),
        result: Ok(view("list")),
    };
    assert_eq!(launcher.next_search_gen(), 1);
    assert_eq!(launcher.next_search_gen(), 2);
    assert!(!launcher.on_event(event(1)).rerender);
    assert!(launcher.search_result("p", "cmd").is_none());
    let effect = launcher.on_event(event(2));
    assert!(effect.rerender);
    assert!(matches!(effect.panel, PanelEffect::Results { gen: 2, .. }));
    // They are kept for a window that is opened later, until the next query.
    assert!(launcher.search_result("p", "cmd").is_some_and(|v| same_view(v, "list")));
    assert!(launcher.search_result("p", "other").is_none());
    let failed = launcher.on_event(HostEvent::SearchResult {
        gen: 2,
        plugin_id: "p".into(),
        command: "cmd".into(),
        query: "q".into(),
        result: Err(RpcError::new(-32603, "no luck")),
    });
    assert_eq!(failed.log.as_deref(), Some("[steward] plugin p search failed: no luck (-32603)"));
    assert!(launcher.search_result("p", "cmd").is_some());
    launcher.begin_search(None, "", "", Vec::new(), Vec::new());
    assert!(launcher.search_result("p", "cmd").is_none());
}

#[test]
fn process_events_are_logged() {
    let mut launcher = Launcher::new();
    let crashed = launcher.on_event(HostEvent::RuntimeCrashed { plugin_id: None });
    assert_eq!(
        crashed.log.as_deref(),
        Some("[steward] plugin runtime (shared pool) crashed; restart scheduled")
    );
    let restarted =
        launcher.on_event(HostEvent::RuntimeRestarted { plugin_id: Some("p".into()) });
    assert_eq!(restarted.log.as_deref(), Some("[steward] plugin runtime p restarted"));
    let toast = launcher.on_event(HostEvent::Toast {
        params: object(vec![("message".to_string(), text_value("hi"))]),
    });
    assert_eq!(toast.log.as_deref(), Some("[steward] plugin toast: hi"));
}

#[test]
fn pasted_text_is_on_one_line() {
    assert_eq!(single_line("a\r\nb\nc\rd"), "a b c d");
    assert_eq!(single_line(""), "");
}

#[test]
fn plugin_items_are_called() {
    let mut launcher = Launcher::new();
    launcher.begin_search(None, "", "", vec![app("One")], Vec::new());
    launcher.render_merged("Command");
    // A row that is not there asks for nothing.
    assert!(matches!(launcher.confirm(7), ConfirmAction::Nothing));
    let call = QueuedCall::Item {
        plugin_id: "p".into(),
        command: "c".into(),
        item_id: "i".into(),
    };
    assert!(!ConfirmAction::Call(call).hides());
}
