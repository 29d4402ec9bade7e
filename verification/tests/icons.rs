use steward::engine::AppEntry;
use steward::icons::{icon_plan, icon_source, IconSource};
use steward::results::ResultItem;
use steward::table::Table;

fn paths(n: usize) -> Vec<String> {
    (0..n).map(|i| format!("C:/app{i}.exe")).collect()
}

#[test]
fn rows_in_view_come_first() {
    let known: Table<String, bool> = Table::new();
    let plan = icon_plan(&paths(10), &known);
    assert_eq!(plan.now, (0..8).collect::<Vec<usize>>());
    assert_eq!(plan.later, vec!["C:/app8.exe".to_string(), "C:/app9.exe".into()]);
}

#[test]
fn known_icons_are_not_extracted_again() {
    let mut known: Table<String, bool> = Table::new();
    known.set("C:/app0.exe".into(), true);
    known.set("C:/app1.exe".into(), false);
    known.set("C:/app8.exe".into(), false);
    let plan = icon_plan(&paths(10), &known);
    // A row in view without an icon is tried again, one out of view is not.
    assert_eq!(plan.now, (1..8).collect::<Vec<usize>>());
    assert_eq!(plan.later, vec!["C:/app9.exe".to_string()]);
}

#[test]
fn path_in_view_is_not_extracted_twice() {
    let mut all = paths(8);
    all.push("C:/app3.exe".into());
    let plan = icon_plan(&all, &Table::new());
    assert!(plan.later.is_empty());
}

#[test]
fn rows_have_the_icon_of_their_app_or_plugin() {
    let app = AppEntry { name: "Term".into(), path: "C:/term.exe".into() };
    assert_eq!(
        icon_source(&ResultItem::App(app)),
        Some(IconSource::App("C:/term.exe".to_string()))
    );
    let command = ResultItem::Command {
        plugin_id: "p".into(),
        command: "cmd".into(),
        title: "t".into(),
        subtitle: "s".into(),
    };
    assert_eq!(icon_source(&command), Some(IconSource::Plugin("p".to_string())));
    let answer = ResultItem::Action { title: "3".into(), subtitle: "1+2".into() };
    assert_eq!(icon_source(&answer), None);
    assert_eq!(icon_source(&ResultItem::Loading { command: "cmd".into() }), None);
}
