use steward::search_bar::{BarEffect, SearchBar};

#[test]
fn keys_fill_the_field() {
    let mut bar = SearchBar::new("Search");
    assert_eq!(bar.value(), "");
    assert_eq!(bar.shown(), "Search");
    assert_eq!(bar.handle_key("a", false, false), BarEffect::Input);
    assert_eq!(bar.handle_key(" ", false, false), BarEffect::Input);
    assert_eq!(bar.handle_key("é", false, false), BarEffect::Input);
    assert_eq!(bar.value(), "a é");
    assert_eq!(bar.shown(), "a é");
    assert_eq!(bar.handle_key("backspace", false, false), BarEffect::Input);
    assert_eq!(bar.value(), "a ");
    assert_eq!(bar.handle_key("enter", false, false), BarEffect::Submit);
    assert_eq!(bar.handle_key("escape", false, false), BarEffect::Nothing);
    assert_eq!(bar.value(), "a ");
}

#[test]
fn shortcuts_are_not_typed() {
    let mut bar = SearchBar::new("Search");
    bar.set_value("x");
    assert_eq!(bar.handle_key("a", true, false), BarEffect::Nothing);
    assert_eq!(bar.handle_key("a", false, true), BarEffect::Nothing);
    assert_eq!(bar.handle_key("", false, false), BarEffect::Nothing);
    assert_eq!(bar.handle_key("\u{7f}", false, false), BarEffect::Nothing);
    assert_eq!(bar.value(), "x");
    bar.set_value("");
    assert_eq!(bar.handle_key("backspace", false, false), BarEffect::Input);
    assert_eq!(bar.value(), "");
    assert_eq!(bar.shown(), "Search");
}

#[test]
fn named_keys_type_nothing() {
    let mut bar = SearchBar::new("Search");
    bar.set_value("ab");
    for key in ["left", "right", "home", "tab", "f9", "space"] {
        assert_eq!(bar.handle_key(key, false, false), BarEffect::Nothing);
    }
    assert_eq!(bar.value(), "ab");
}
