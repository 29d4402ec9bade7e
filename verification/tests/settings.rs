use steward::hotkeys::HotkeyField;
use steward::settings::{
    accent_label_key, accent_presets, current_accent_label, format_color, gpui_component_locale,
    language_label, parse_hex_color, supported_languages, AccentLabel, HotkeyRecorder,
    RecordingStep, DEFAULT_ACCENT,
};

#[test]
fn colors_are_read_and_written() {
    assert_eq!(parse_hex_color("#89b4fa"), Some(0x89b4fa));
    assert_eq!(parse_hex_color("A6E3A1"), Some(0xa6e3a1));
    assert_eq!(parse_hex_color("#12345"), None);
    assert_eq!(parse_hex_color("#1234567"), None);
    assert_eq!(parse_hex_color("##12345"), None);
    assert_eq!(parse_hex_color("#12345g"), None);
    assert_eq!(parse_hex_color("#+12345"), None);
    assert_eq!(parse_hex_color(""), None);
    assert_eq!(format_color(0x00ff0a), "#00ff0a");
    for color in [0, 1, 0x123456, 0xabcdef, 0xffffff] {
        assert_eq!(parse_hex_color(&format_color(color)), Some(color));
    }
}

#[test]
fn presets_have_names() {
    let names: Vec<&str> = accent_presets().iter().map(|c| accent_label_key(*c)).collect();
    assert_eq!(
        names,
        [
            "settings-theme-violet",
            "settings-theme-blue",
            "settings-theme-jade",
            "settings-theme-rose",
            "settings-theme-amber"
        ]
    );
    assert_eq!(accent_presets()[0], DEFAULT_ACCENT);
    assert_eq!(accent_label_key(0x123456), "settings-theme-blue");
}

#[test]
fn languages_have_names() {
    assert_eq!(language_label("zh"), "中文");
    assert_eq!(language_label("en"), "English");
    assert_eq!(language_label("fr"), "Français");
    assert_eq!(language_label("de"), "Deutsch");
    assert_eq!(language_label("ru"), "Русский");
    assert_eq!(language_label("ja"), "日本語");
    assert_eq!(language_label("ko"), "한국어");
    assert_eq!(language_label("xx"), "xx");
    assert_eq!(gpui_component_locale("zh"), "zh-CN");
    assert_eq!(gpui_component_locale("ja"), "en");
}

#[test]
fn seven_languages_are_offered() {
    let codes: Vec<&str> = supported_languages().iter().map(|(code, _)| *code).collect();
    assert_eq!(codes, ["zh", "en", "fr", "de", "ru", "ja", "ko"]);
    for (code, name) in supported_languages() {
        assert_eq!(language_label(code), name);
    }
}

#[test]
fn the_current_color_has_a_name_or_digits() {
    for color in accent_presets() {
        assert_eq!(current_accent_label(color), AccentLabel::Message(accent_label_key(color)));
    }
    assert_eq!(current_accent_label(0x0a1b2c), AccentLabel::Text("#0a1b2c".to_string()));
}

#[test]
fn recording_ends_with_a_hotkey() {
    let mut recorder = HotkeyRecorder::new();
    assert!(matches!(recorder.on_key(true, false, false, false, "k"), RecordingStep::Ignored));
    recorder.toggle(HotkeyField::Summon);
    assert!(matches!(recorder.on_key(false, false, false, false, "k"), RecordingStep::Ignored));
    assert!(matches!(recorder.on_key(true, false, false, false, "control"), RecordingStep::Ignored));
    assert_eq!(recorder.recording, Some(HotkeyField::Summon));
    match recorder.on_key(true, false, false, false, "k") {
        RecordingStep::Recorded { field, hotkey } => {
            assert_eq!(field, HotkeyField::Summon);
            assert_eq!(hotkey.to_string(), "control+KeyK");
        }
        other => panic!("unexpected {other:?}"),
    }
    assert_eq!(recorder.recording, None);
}

#[test]
fn recording_can_be_left() {
    let mut recorder = HotkeyRecorder::new();
    recorder.toggle(HotkeyField::Settings);
    recorder.toggle(HotkeyField::Summon);
    assert_eq!(recorder.recording, Some(HotkeyField::Summon));
    recorder.toggle(HotkeyField::Summon);
    assert_eq!(recorder.recording, None);
    recorder.toggle(HotkeyField::Summon);
    assert!(matches!(
        recorder.on_key(false, false, false, false, "escape"),
        RecordingStep::Cancelled
    ));
    assert_eq!(recorder.recording, None);
}
