use steward::hotkeys::{
    format_hotkey, gpui_key_to_hotkey_token, keystroke_to_hotkey, same_hotkey, Hotkey, HotkeyChange,
    HotkeyField, HotkeyOutcome, Hotkeys,
};

fn hotkey(control: bool, alt: bool, shift: bool, meta: bool, code: &str) -> Hotkey {
    Hotkey { control, alt, shift, meta, code: code.to_string() }
}

#[test]
fn gpui_key_token_mapping() {
    assert_eq!(gpui_key_to_hotkey_token("space").as_deref(), Some("Space"));
    assert_eq!(gpui_key_to_hotkey_token("enter").as_deref(), Some("Enter"));
    assert_eq!(gpui_key_to_hotkey_token("up").as_deref(), Some("ArrowUp"));
    assert_eq!(gpui_key_to_hotkey_token("f9").as_deref(), Some("F9"));
    assert_eq!(gpui_key_to_hotkey_token("a").as_deref(), Some("A"));
    assert_eq!(gpui_key_to_hotkey_token("9").as_deref(), Some("9"));
    assert_eq!(gpui_key_to_hotkey_token("-").as_deref(), Some("Minus"));
    assert_eq!(gpui_key_to_hotkey_token(";").as_deref(), Some("Semicolon"));
    // Modifier-only and otherwise unmappable keys never become a hotkey.
    assert_eq!(gpui_key_to_hotkey_token("control"), None);
    assert_eq!(gpui_key_to_hotkey_token("shift"), None);
    assert_eq!(gpui_key_to_hotkey_token("alt"), None);
    assert_eq!(gpui_key_to_hotkey_token("unidentified"), None);
}

#[test]
fn function_keys_stop_at_twenty_four() {
    assert_eq!(gpui_key_to_hotkey_token("f1").as_deref(), Some("F1"));
    assert_eq!(gpui_key_to_hotkey_token("f24").as_deref(), Some("F24"));
    assert_eq!(gpui_key_to_hotkey_token("f25"), None);
    assert_eq!(gpui_key_to_hotkey_token("f0"), None);
    assert_eq!(gpui_key_to_hotkey_token("f"), Some("F".to_string()));
    assert_eq!(gpui_key_to_hotkey_token(""), None);
    assert_eq!(gpui_key_to_hotkey_token("é"), None);
}

#[test]
fn keystroke_to_hotkey_requires_a_modifier() {
    let combo = keystroke_to_hotkey(true, true, false, false, "space")
        .expect("ctrl+alt+space maps to a hotkey");
    assert!(combo.control && combo.alt && !combo.shift && !combo.meta);
    assert_eq!(combo.code, "Space");

    // A plain key must not become a global summon hotkey.
    assert!(keystroke_to_hotkey(false, false, false, false, "space").is_none());

    // A modifier-only press has no main key to map.
    assert!(keystroke_to_hotkey(true, false, false, false, "control").is_none());
}

#[test]
fn persisted_hotkey_string_roundtrips() {
    let recorded = keystroke_to_hotkey(true, true, false, false, "space").expect("valid combo");
    let persisted = recorded.to_string();
    assert_eq!(persisted, "control+alt+Space");
    assert_eq!(HotkeyField::Settings.read_hotkey(Some(&persisted)), recorded);
}

#[test]
fn every_bindable_key_is_read_back() {
    let mut keys: Vec<String> = [
        "space", "enter", "tab", "backspace", "delete", "home", "end", "pageup", "pagedown", "insert",
        "up", "down", "left", "right", "capslock", "numlock", "scrolllock", "printscreen", "pause",
    ]
    .iter()
    .map(|k| k.to_string())
    .collect();
    keys.extend("abcdefghijklmnopqrstuvwxyz0123456789-=[]\\;',./`".chars().map(String::from));
    keys.extend((1..=24).map(|n| format!("f{n}")));
    for key in keys {
        for mods in 1..16u8 {
            let pressed = keystroke_to_hotkey(
                mods & 1 != 0,
                mods & 2 != 0,
                mods & 4 != 0,
                mods & 8 != 0,
                &key,
            )
            .unwrap_or_else(|| panic!("{key} can be bound"));
            let read = HotkeyField::Summon.read_hotkey(Some(&pressed.to_string()));
            assert_eq!(read, pressed, "{key}");
        }
    }
    let letter = keystroke_to_hotkey(true, false, false, false, "a").unwrap();
    assert_eq!(letter.code, "KeyA");
    let digit = keystroke_to_hotkey(true, false, false, false, "7").unwrap();
    assert_eq!(digit.code, "Digit7");
}

#[test]
fn format_hotkey_is_human_readable() {
    let default = HotkeyField::Summon.default_hotkey();
    assert_eq!(format_hotkey(&default), "Ctrl + Alt + Space");
    let settings = HotkeyField::Settings.default_hotkey();
    assert_eq!(format_hotkey(&settings), "Ctrl + Comma");
    assert_eq!(settings.to_string(), "control+Comma");
    assert_eq!(HotkeyField::Summon.read_hotkey(Some(&settings.to_string())), settings);
    let combo = hotkey(false, false, true, true, "KeyA");
    assert_eq!(format_hotkey(&combo), "Win + Shift + A");
}

#[test]
fn stored_hotkeys_are_read_loosely() {
    let read = HotkeyField::Settings.read_hotkey(Some("Ctrl+Shift+c"));
    assert_eq!(read, hotkey(true, false, true, false, "KeyC"));
    // What is no hotkey, and what is missing, give the default.
    let default = HotkeyField::Settings.default_hotkey();
    assert_eq!(HotkeyField::Settings.read_hotkey(Some("Ctrl+Shift")), default);
    assert_eq!(HotkeyField::Settings.read_hotkey(Some("C+Ctrl")), default);
    assert_eq!(HotkeyField::Settings.read_hotkey(None), default);
}

#[test]
fn settings_hotkey_changes_at_once() {
    let mut keys = Hotkeys::new(
        Some(HotkeyField::Summon.default_hotkey()),
        Some(HotkeyField::Settings.default_hotkey()),
    );
    let new = hotkey(true, false, true, false, "KeyP");
    match keys.apply_hotkey(HotkeyField::Settings, &new, false) {
        HotkeyChange::Store { key, value } => {
            assert_eq!(key, "settings_hotkey");
            assert_eq!(value, "shift+control+KeyP");
        }
        other => panic!("unexpected {other:?}"),
    }
    assert!(keys.is_active(HotkeyField::Settings, &new));
    assert!(matches!(
        keys.apply_hotkey(HotkeyField::Settings, &new, true),
        HotkeyChange::Unchanged
    ));
}

#[test]
fn summon_hotkey_goes_through_the_system() {
    let old = HotkeyField::Summon.default_hotkey();
    let mut keys = Hotkeys::new(Some(HotkeyField::Summon.default_hotkey()), None);
    let new = hotkey(true, false, false, false, "KeyK");
    assert!(matches!(
        keys.apply_hotkey(HotkeyField::Summon, &new, false),
        HotkeyChange::Refused
    ));
    match keys.apply_hotkey(HotkeyField::Summon, &new, true) {
        HotkeyChange::Register { release: Some(h) } => assert!(same_hotkey(&h, &old)),
        other => panic!("unexpected {other:?}"),
    }
    // The system did not take it: the one in use is registered again.
    match keys.summon_registered(&new, false) {
        HotkeyOutcome::Restore { hotkey: Some(h) } => assert!(same_hotkey(&h, &old)),
        other => panic!("unexpected {other:?}"),
    }
    assert!(keys.is_active(HotkeyField::Summon, &old));
    match keys.summon_registered(&new, true) {
        HotkeyOutcome::Store { key, value } => {
            assert_eq!(key, "summon_hotkey");
            assert_eq!(value, "control+KeyK");
        }
        other => panic!("unexpected {other:?}"),
    }
    assert!(keys.is_active(HotkeyField::Summon, &new));
    assert!(keys.active_hotkey(HotkeyField::Settings).is_none());
}
