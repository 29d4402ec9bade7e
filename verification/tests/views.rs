use steward::json::{Json, Number};
use steward::results::ResultItem;
use steward::views::{
    extract_actions, is_detail_or_form_view, is_panel_view, is_search_view, list_items,
    parse_calendar_view, parse_detail_view, parse_form_field, parse_form_view, parse_grid_view,
    parse_panel_view, plugin_view_items, DetailBlock, FieldKind, FormValue, PanelKind,
};

fn json(text: &str) -> Json {
    value(&serde_json::from_str(text).unwrap())
}

fn value(v: &serde_json::Value) -> Json {
    match v {
        serde_json::Value::Null => Json::Null,
        serde_json::Value::Bool(b) => Json::Bool(*b),
        serde_json::Value::Number(n) => Json::Number(if let Some(u) = n.as_u64() {
            Number::Pos(u)
        } else if let Some(i) = n.as_i64() {
            Number::Neg(i)
        } else {
            Number::Float(n.as_f64().unwrap().to_bits())
        }),
        serde_json::Value::String(s) => Json::Str(s.clone()),
        serde_json::Value::Array(a) => Json::Array(a.iter().map(value).collect()),
        serde_json::Value::Object(o) => {
            Json::Object(o.iter().map(|(k, v)| (k.clone(), value(v))).collect())
        }
    }
}

#[test]
fn plugin_view_items_unwraps_response_envelope() {
    let wrapped = json(
        r#"{ "view": { "type": "list",
             "items": [{ "id": "a", "title": "Alpha", "subtitle": "first" }] } }"#,
    );
    let items = plugin_view_items(&wrapped).expect("wrapped list view");
    assert_eq!(items.len(), 1);
    assert_eq!(items[0].get_str("id").as_deref(), Some("a"));

    // A bare view (no envelope) is tolerated too.
    let bare = json(r#"{ "type": "list", "items": [] }"#);
    assert_eq!(plugin_view_items(&bare).map(|items| items.len()), Some(0));

    // Non-list views and missing envelopes yield no rows.
    let not_list = json(r#"{ "view": { "type": "detail" } }"#);
    assert!(plugin_view_items(&not_list).is_none());
    let missing = json(r#"{ "view": {} }"#);
    assert!(plugin_view_items(&missing).is_none());
}

#[test]
fn parse_calendar_view_handles_wrapped_and_bare_views() {
    let wrapped = json(
        r#"{ "view": { "type": "calendar", "year": 2026, "month": 8, "today": "2026-08-27",
             "startOfWeek": 1, "selected": "2026-08-27" } }"#,
    );
    let calendar = parse_calendar_view(&wrapped, "com.example.calendar", "calendar", true)
        .expect("calendar view");
    assert_eq!(calendar.plugin_id, "com.example.calendar");
    assert_eq!(calendar.command, "calendar");
    assert!(calendar.detachable);
    assert_eq!(calendar.data.year, 2026);
    assert_eq!(calendar.data.month, 8);
    assert_eq!(calendar.data.today, "2026-08-27");
    assert_eq!(calendar.data.start_of_week, 1);

    // Bare view (no envelope) and defaulted fields are tolerated.
    let bare =
        json(r#"{ "type": "calendar", "year": 2026, "month": 13, "today": "2026-01-01" }"#);
    let calendar = parse_calendar_view(&bare, "com.example.calendar", "calendar", false).unwrap();
    assert!(!calendar.detachable);
    assert_eq!(calendar.data.month, 12, "month clamps to 1..=12");
    assert_eq!(calendar.data.selected, "2026-01-01", "selected defaults to today");
    assert_eq!(calendar.data.start_of_week, 1, "startOfWeek defaults to Monday");

    // Non-calendar and malformed views yield no calendar.
    assert!(
        parse_calendar_view(&json(r#"{ "view": { "type": "list" } }"#), "p", "list", false)
            .is_none()
    );
    assert!(parse_calendar_view(
        &json(r#"{ "view": { "type": "calendar" } }"#),
        "p",
        "calendar",
        false
    )
    .is_none());
}

#[test]
fn list_items_builds_plugin_rows() {
    let view = json(
        r#"{ "type": "list", "items": [
                { "id": "a", "title": "Alpha", "subtitle": "first" },
                { "id": "b", "title": "Beta" },
                { "id": "", "title": "NoId" } ] }"#,
    );
    let items = list_items(&view, "com.example.p", "cmd");
    assert_eq!(items.len(), 2);
    assert!(matches!(
        &items[0],
        ResultItem::Plugin { plugin_id, item_id, title, subtitle, .. }
            if plugin_id == "com.example.p"
                && item_id == "a"
                && title == "Alpha"
                && subtitle == "first"
    ));
    assert!(matches!(
        &items[1],
        ResultItem::Plugin { item_id, title, subtitle, command, .. }
            if item_id == "b" && title == "Beta" && subtitle.is_empty()
                && command == "cmd"
    ));
}

#[test]
fn list_items_ignores_non_list_views() {
    let view =
        json(r#"{ "type": "calendar", "year": 2026, "month": 8, "today": "2026-08-28" }"#);
    assert!(list_items(&view, "p", "cmd").is_empty());
}

#[test]
fn detail_views_keep_their_blocks() {
    let view = json(
        r#"{ "view": { "type": "detail", "title": "T", "subtitle": "S", "content": [
              { "type": "text", "value": "P" },
              { "type": "code", "value": "let x = 1;", "language": "rust" },
              { "type": "separator" },
              { "value": "untyped" } ] } }"#,
    );
    let detail = parse_detail_view(&view).expect("detail view");
    assert_eq!(detail.title, "T");
    assert_eq!(detail.subtitle.as_deref(), Some("S"));
    assert_eq!(
        detail.blocks,
        vec![
            DetailBlock::Text("P".to_string()),
            DetailBlock::Code {
                value: "let x = 1;".to_string(),
                language: Some("rust".to_string()),
            },
            DetailBlock::Separator,
            DetailBlock::Text("untyped".to_string()),
        ]
    );
    assert!(parse_detail_view(&json(r#"{ "type": "detail" }"#)).is_none());
    assert!(parse_detail_view(&json(r#"{ "type": "form" }"#)).is_none());
}

#[test]
fn form_views_keep_their_fields() {
    let view = json(
        r#"{ "type": "form", "title": "F", "submitLabel": "Go", "fields": [
              { "id": "name", "label": "Name", "type": "text", "value": "x", "required": true },
              { "id": "on", "label": "On", "type": "toggle", "value": true },
              { "id": "pick", "label": "Pick", "type": "select",
                "options": [ { "id": "a", "label": "A" } ] },
              { "id": "bad", "label": "Bad", "type": "nothing" } ] }"#,
    );
    let form = parse_form_view(&view).expect("form view");
    assert_eq!(form.title.as_deref(), Some("F"));
    assert_eq!(form.submit_label.as_deref(), Some("Go"));
    assert_eq!(form.fields[0].kind, FieldKind::Text);
    assert!(form.fields[0].required);
    assert_eq!(form.fields[0].value, Some(FormValue::String("x".to_string())));
    assert_eq!(form.fields[1].value, Some(FormValue::Bool(true)));
    assert_eq!(form.fields[2].options.len(), 1);
    assert_eq!(form.fields.len(), 3);
    assert!(parse_form_field(&json(r#"{ "label": "No id", "type": "text" }"#)).is_none());
}

#[test]
fn field_kinds_have_wire_names() {
    assert_eq!(FieldKind::from_wire("text"), Some(FieldKind::Text));
    assert_eq!(FieldKind::from_wire("toggle"), Some(FieldKind::Toggle));
    assert_eq!(FieldKind::from_wire("select"), Some(FieldKind::Select));
    assert_eq!(FieldKind::from_wire("other"), None);
}

#[test]
fn grid_views_keep_their_cells() {
    let view = json(
        r#"{ "type": "grid", "columns": 3, "selectedId": "b", "items": [
              { "id": "a", "title": "A" }, { "id": "b", "title": "B", "badge": "1" } ] }"#,
    );
    let grid = parse_grid_view(&view).expect("grid view");
    assert_eq!(grid.columns, 3);
    assert_eq!(grid.items.len(), 2);
    assert_eq!(grid.items[1].badge.as_deref(), Some("1"));
    assert_eq!(grid.selected.as_deref(), Some("b"));
}

#[test]
fn actions_are_read_from_the_view() {
    let view = json(
        r#"{ "view": { "type": "list", "items": [], "actionPanel": { "actions": [
              { "id": "copy", "title": "Copy" }, { "title": "no id" } ] } } }"#,
    );
    let actions = extract_actions(&view);
    assert_eq!(actions.len(), 1);
    assert_eq!(actions[0].id, "copy");
    assert_eq!(actions[0].title, "Copy");
    assert!(extract_actions(&json(r#"{ "type": "list" }"#)).is_empty());
}

#[test]
fn views_are_told_apart() {
    assert!(is_search_view(&json(r#"{ "view": { "type": "search" } }"#)));
    assert!(!is_search_view(&json(r#"{ "type": "list" }"#)));
    assert!(is_detail_or_form_view(&json(r#"{ "type": "detail" }"#)));
    assert!(is_detail_or_form_view(&json(r#"{ "type": "form" }"#)));
    assert!(is_panel_view(&json(r#"{ "type": "list" }"#)));
    assert!(!is_panel_view(&json(r#"{ "type": "unknown" }"#)));
    let (kind, actions) =
        parse_panel_view(&json(r#"{ "type": "search" }"#), "p", "c", false).expect("hosted");
    assert!(matches!(kind, PanelKind::Search));
    assert!(actions.is_empty());
    assert!(parse_panel_view(&json(r#"{ "type": "unknown" }"#), "p", "c", false).is_none());
}
