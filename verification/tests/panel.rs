use steward::calendar::{shift_month, CalendarData};
use steward::host::QueuedCall;
use steward::json::{object, text_value, Json};
use steward::panel::{
    content_height, list_height, panel_height, results_height, PanelKey, PluginPanel,
    CALENDAR_GRID_HEIGHT,
};
use steward::results::{ResultItem, RESULT_ROW_HEIGHT};
use steward::views::{
    ActionRef, ActiveCalendar, FieldKind, FormData, FormField, FormValue, PanelKind,
};

#[test]
fn panel_height_follows_view_content() {
    let items = vec![ResultItem::Plugin {
        plugin_id: "p".into(),
        command: "cmd".into(),
        item_id: "a".into(),
        title: "A".into(),
        subtitle: "s".into(),
    }];
    assert!(panel_height(&PanelKind::List(items)) >= RESULT_ROW_HEIGHT);

    let cal = ActiveCalendar {
        data: CalendarData {
            year: 2026,
            month: 8,
            today: "2026-08-28".into(),
            selected: "2026-08-28".into(),
            start_of_week: 1,
        },
        plugin_id: "p".into(),
        command: "calendar".into(),
        detachable: true,
    };
    assert!(panel_height(&PanelKind::Calendar(cal)) >= CALENDAR_GRID_HEIGHT);
}

#[test]
fn shift_month_wraps_across_year_boundaries() {
    assert_eq!(shift_month(2026, 8, 1), (2026, 9));
    assert_eq!(shift_month(2026, 12, 1), (2027, 1));
    assert_eq!(shift_month(2026, 1, -1), (2025, 12));
    assert_eq!(shift_month(2026, 8, 12), (2027, 8));
    assert_eq!(shift_month(2026, 8, -13), (2025, 7));
}

fn calendar_panel() -> PluginPanel {
    let cal = ActiveCalendar {
        data: CalendarData {
            year: 2026,
            month: 1,
            today: "2026-01-31".into(),
            selected: "2026-01-31".into(),
            start_of_week: 1,
        },
        plugin_id: "p".into(),
        command: "calendar".into(),
        detachable: true,
    };
    PluginPanel::new("p".into(), "calendar".into(), PanelKind::Calendar(cal), Vec::new())
}

fn row(id: &str, command: &str) -> ResultItem {
    ResultItem::Plugin {
        plugin_id: "p".into(),
        command: command.into(),
        item_id: id.into(),
        title: id.to_uppercase(),
        subtitle: String::new(),
    }
}

#[test]
fn calendar_panel_moves_and_confirms() {
    let mut panel = calendar_panel();
    assert_eq!(panel.handle_key("left"), PanelKey::MoveDay(-1));
    assert_eq!(panel.handle_key("down"), PanelKey::MoveDay(7));
    assert_eq!(panel.handle_key("enter"), PanelKey::ConfirmDay);
    assert_eq!(panel.handle_key("escape"), PanelKey::Dock);
    assert_eq!(panel.handle_key("x"), PanelKey::Ignored);
    panel.move_selection(-1);
    assert_eq!(panel.selection(), "2026-01-30");
    assert!(matches!(panel.confirm_date(), QueuedCall::Item { item_id, command, .. }
        if item_id == "2026-01-30" && command == "calendar"));
    panel.move_selection(7);
    assert_eq!(panel.selection(), "2026-01-31");
    panel.move_selection(-1);
    panel.navigate_month(1);
    assert_eq!(panel.selection(), "2026-02-28");
    panel.navigate_year(-2);
    assert!(matches!(panel.kind(), PanelKind::Calendar(c)
        if c.data.year == 2024 && c.data.month == 2));
    assert!(panel.run_action("copy").is_none());
}

#[test]
fn list_panel_confirms_rows_and_runs_actions() {
    let kind = PanelKind::List(vec![row("a", "own"), row("b", "")]);
    let actions =
        vec![ActionRef { id: "copy".into(), title: "Copy".into(), icon: None }];
    let mut panel = PluginPanel::new("p".into(), "cmd".into(), kind, actions);
    assert_eq!(panel.handle_key("down"), PanelKey::MoveRow(1));
    assert_eq!(panel.handle_key("enter"), PanelKey::ConfirmRow);
    assert!(panel.shown_actions().is_some());
    assert!(matches!(panel.confirm_selected(), Some(QueuedCall::Item { item_id, command, .. })
        if item_id == "a" && command == "own"));
    panel.select_relative(1);
    assert_eq!(panel.list().selected, Some(1));
    // A row that names no command goes to the window's.
    assert!(matches!(panel.confirm_row(1), Some(QueuedCall::Item { item_id, command, .. })
        if item_id == "b" && command == "cmd"));
    assert!(panel.confirm_row(2).is_none());
    assert!(matches!(panel.run_action("copy"),
        Some(QueuedCall::Action { action_id, item_id: Some(item), .. })
        if action_id == "copy" && item == "b"));
    assert!(panel.submit().is_none());
}

#[test]
fn form_panel_submits_its_values() {
    let field = |id: &str, kind: FieldKind| FormField {
        id: id.into(),
        label: id.into(),
        kind,
        placeholder: None,
        options: Vec::new(),
        value: None,
        required: false,
    };
    let data = FormData {
        title: None,
        fields: vec![field("on", FieldKind::Toggle), field("pick", FieldKind::Select)],
        submit_label: None,
    };
    let mut panel = PluginPanel::new("p".into(), "cmd".into(), PanelKind::Form(data), Vec::new());
    panel.toggle_field("on");
    panel.select_option("pick", "b");
    match panel.submit() {
        Some(QueuedCall::Submit { plugin_id, values }) => {
            assert_eq!(plugin_id, "p");
            assert_eq!(values.get_bool("on"), Some(true));
            assert_eq!(values.get_str("pick").as_deref(), Some("b"));
        }
        other => panic!("unexpected {other:?}"),
    }
    assert_eq!(panel.form().value("on"), Some(&FormValue::Bool(true)));
}

#[test]
fn search_panel_shows_current_results() {
    let mut panel = PluginPanel::new("p".into(), "cmd".into(), PanelKind::Search, Vec::new());
    assert!(matches!(panel.search(4, "q"), Some(QueuedCall::Search { gen: 4, query, .. })
        if query == "q"));
    let found = object(vec![
        ("type".to_string(), text_value("list")),
        (
            "items".to_string(),
            Json::Array(vec![object(vec![("id".to_string(), text_value("a"))])]),
        ),
    ]);
    panel.apply_search_result(3, 4, &found);
    assert!(panel.search_rows().is_empty());
    assert!(panel.search_results().is_none());
    panel.apply_search_result(4, 4, &found);
    assert_eq!(panel.search_rows().len(), 1);
    let kept = panel.search_results().and_then(|view| view.get_str("type"));
    assert_eq!(kept.as_deref(), Some("list"));
    panel.set_view(PanelKind::Search, Vec::new());
    assert!(panel.search_rows().is_empty());
    assert!(panel.search_results().is_none());
}

#[test]
fn panel_heights_add_up() {
    assert_eq!(list_height(3), 3 * RESULT_ROW_HEIGHT);
    assert_eq!(list_height(100), 8 * RESULT_ROW_HEIGHT);
    assert_eq!(panel_height(&PanelKind::Search), 360 + 24 + 32);
    assert_eq!(content_height(&PanelKind::Search, 416), 360);
    assert_eq!(content_height(&PanelKind::Search, 0), 120);
}

#[test]
fn calendar_panel_keeps_to_the_month_it_shows() {
    let cal = ActiveCalendar {
        data: CalendarData {
            year: 2026,
            month: 8,
            today: "2026-08-28".into(),
            selected: "2026-09-02".into(),
            start_of_week: 1,
        },
        plugin_id: "p".into(),
        command: "calendar".into(),
        detachable: true,
    };
    let kind = PanelKind::Calendar(cal);
    let mut panel = PluginPanel::new("p".into(), "calendar".into(), kind, Vec::new());
    assert_eq!(panel.selection(), "2026-09-02");
    panel.move_selection(7);
    assert_eq!(panel.selection(), "2026-08-31");
    panel.move_selection(-1);
    assert_eq!(panel.selection(), "2026-08-30");
}

#[test]
fn form_panel_runs_actions() {
    let data = FormData { title: None, fields: Vec::new(), submit_label: None };
    let actions = vec![ActionRef { id: "copy".into(), title: "Copy".into(), icon: None }];
    let panel = PluginPanel::new("p".into(), "form".into(), PanelKind::Form(data), actions);
    assert!(panel.shown_actions().is_some());
    assert!(matches!(panel.run_action("copy"),
        Some(QueuedCall::Action { plugin_id, action_id, item_id: None })
        if plugin_id == "p" && action_id == "copy"));
}

#[test]
fn search_results_have_room_below_the_bar() {
    assert_eq!(results_height(400), 352);
    assert_eq!(results_height(128), 80);
    assert_eq!(results_height(127), 80);
    assert_eq!(results_height(0), 80);
}
