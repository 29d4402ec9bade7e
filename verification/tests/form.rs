use steward::form::{display_field, submit_label, FieldDisplay, FormState};
use steward::json::Json;
use steward::views::{FieldKind, FormData, FormField, FormValue};

fn field(id: &str, kind: FieldKind, value: Option<FormValue>) -> FormField {
    FormField {
        id: id.into(),
        label: id.to_uppercase(),
        kind,
        placeholder: Some("type here".into()),
        options: Vec::new(),
        value,
        required: false,
    }
}

#[test]
fn fields_start_with_their_values() {
    let form = FormState::new(&vec![
        field("name", FieldKind::Text, Some(FormValue::String("x".into()))),
        field("on", FieldKind::Toggle, None),
        field("pick", FieldKind::Select, None),
    ]);
    assert_eq!(form.value("name"), Some(&FormValue::String("x".into())));
    assert_eq!(form.value("on"), Some(&FormValue::Bool(false)));
    assert_eq!(form.value("pick"), Some(&FormValue::String(String::new())));
    assert_eq!(form.value("other"), None);
}

#[test]
fn filled_values_are_submitted() {
    let mut form = FormState::new(&vec![
        field("on", FieldKind::Toggle, None),
        field("pick", FieldKind::Select, None),
    ]);
    form.toggle("on");
    form.select_field("pick", "b");
    let json = form.submission();
    assert_eq!(json.get_bool("on"), Some(true));
    assert_eq!(json.get_str("pick").as_deref(), Some("b"));
    assert!(matches!(&json, Json::Object(fields) if fields.len() == 2));
    form.toggle("on");
    assert_eq!(form.value("on"), Some(&FormValue::Bool(false)));
}

#[test]
fn fields_are_shown_by_kind() {
    let text = field("t", FieldKind::Text, None);
    assert_eq!(display_field(&text, None), FieldDisplay::Text("type here".into()));
    let filled = FormValue::String("abc".into());
    assert_eq!(display_field(&text, Some(&filled)), FieldDisplay::Text("abc".into()));
    let toggle = field("b", FieldKind::Toggle, None);
    assert_eq!(display_field(&toggle, Some(&FormValue::Bool(true))), FieldDisplay::Toggle(true));
    assert_eq!(display_field(&toggle, None), FieldDisplay::Toggle(false));
    let select = field("s", FieldKind::Select, None);
    assert_eq!(display_field(&select, Some(&filled)), FieldDisplay::Select("abc".into()));
}

#[test]
fn button_has_a_label() {
    let mut data = FormData { title: None, fields: Vec::new(), submit_label: None };
    assert_eq!(submit_label(&data), "Submit");
    data.submit_label = Some("Go".into());
    assert_eq!(submit_label(&data), "Go");
    assert_eq!(FormValue::Bool(true).to_string_value(), "true");
    assert_eq!(FormValue::String("a".into()).to_string_value(), "a");
}
