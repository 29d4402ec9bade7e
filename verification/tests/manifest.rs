use steward::json::Json;
use steward::manifest::{
    entry_path, Isolation, Permission, PluginCommand, PluginManifest, Trigger, TriggerType,
};

fn command(name: &str, title: &str) -> PluginCommand {
    PluginCommand {
        name: name.into(),
        title: title.into(),
        trigger: Trigger {
            kind: TriggerType::Command,
            value: None,
        },
        detachable: false,
        keywords: Vec::new(),
    }
}

fn calendar() -> PluginManifest {
    PluginManifest {
        id: "com.example.calendar".into(),
        name: "Calendar".into(),
        version: "1.0.0".into(),
        icon: None,
        fs_roots: Vec::new(),
        commands: vec![command("calendar", "Calendar")],
        permissions: vec![Permission::ClipboardWrite],
        isolation: Isolation::SharedPool,
    }
}

fn has_field(value: &Json, name: &str) -> bool {
    match value {
        Json::Object(fields) => fields
            .iter()
            .any(|(key, value)| key == name || has_field(value, name)),
        Json::Array(items) => items.iter().any(|item| has_field(item, name)),
        _ => false,
    }
}

#[test]
fn calendar_manifest_validates() {
    let manifest = calendar();
    assert_eq!(manifest.isolation, Isolation::SharedPool);
    assert_eq!(manifest.permissions, vec![Permission::ClipboardWrite]);
    assert!(
        manifest.commands[0].keywords.is_empty(),
        "keywords default to empty for backward compatibility"
    );
    assert!(
        !manifest.commands[0].detachable,
        "detachable defaults to false for backward compatibility"
    );
    manifest.validate().unwrap();
}

#[test]
fn empty_keyword_is_rejected() {
    let mut manifest = calendar();
    manifest.commands[0].keywords = vec!["  ".into()];
    let error = manifest.validate().unwrap_err();
    assert!(error.0.contains("keyword must not be empty"));
}

#[test]
fn id_must_be_reverse_domain() {
    let mut manifest = calendar();
    manifest.id = "calculator".into();
    assert!(manifest.validate().is_err());
    manifest.id = "com..broken".into();
    assert!(manifest.validate().is_err());
    manifest.id = "com.example.calendar".into();
    manifest.validate().unwrap();
}

#[test]
fn commands_are_required_and_unique() {
    let mut manifest = calendar();
    manifest.commands.clear();
    assert!(manifest.validate().is_err());
    let mut manifest = calendar();
    manifest.commands.push(manifest.commands[0].clone());
    assert!(manifest.validate().is_err());
}

#[test]
fn prefix_trigger_requires_value() {
    let mut manifest = calendar();
    manifest.commands[0].trigger = Trigger {
        kind: TriggerType::Prefix,
        value: None,
    };
    assert!(manifest.validate().is_err());
    manifest.commands[0].trigger.value = Some("cal ".into());
    manifest.validate().unwrap();
}

#[test]
fn command_trigger_rejects_value() {
    let mut manifest = calendar();
    manifest.commands[0].trigger = Trigger {
        kind: TriggerType::Command,
        value: Some("calendar".into()),
    };
    assert!(manifest.validate().is_err());
}

#[test]
fn invalid_regex_is_rejected() {
    let mut manifest = calendar();
    manifest.commands[0].trigger = Trigger {
        kind: TriggerType::Regex,
        value: Some("(".into()),
    };
    assert!(manifest.validate().is_err());
}

#[test]
fn unimplemented_permissions_are_rejected() {
    let mut manifest = calendar();
    manifest.permissions = vec![Permission::Network];
    let error = manifest.validate().unwrap_err();
    assert!(
        error.0.contains("not supported in M3"),
        "unexpected error: {}",
        error.0
    );
}

#[test]
fn fs_write_permission_is_accepted() {
    let mut manifest = calendar();
    manifest.permissions = vec![Permission::FsWrite];
    manifest.validate().unwrap();
    assert!(manifest.permissions[0].supported_in_m3());
}

#[test]
fn clipboard_history_permission_is_accepted() {
    let mut manifest = calendar();
    manifest.permissions = vec![Permission::ClipboardHistory];
    manifest.validate().unwrap();
}

#[test]
fn open_permissions_are_accepted() {
    for permission in [Permission::OpenUrl, Permission::OpenPath] {
        let mut manifest = calendar();
        manifest.permissions = vec![permission];
        manifest.validate().unwrap();
        assert!(permission.supported_in_m3());
    }
}

#[test]
fn fs_read_permission_and_roots_are_accepted() {
    let mut manifest = calendar();
    manifest.permissions = vec![Permission::FsRead];
    manifest.fs_roots = vec!["C:\\data".into(), "D:\\docs".into()];
    manifest.validate().unwrap();
    assert!(manifest.permissions[0].supported_in_m3());
    assert_eq!(
        manifest.fs_roots,
        vec!["C:\\data".to_string(), "D:\\docs".to_string()]
    );

    // An empty root string is rejected.
    let mut bad = manifest;
    bad.fs_roots = vec!["  ".into()];
    assert!(bad.validate().is_err());
}

#[test]
fn detachable_command_roundtrips() {
    let mut manifest = calendar();
    manifest.commands[0].detachable = true;
    assert!(manifest.commands[0].detachable);
    manifest.validate().unwrap();

    // A false value is omitted from serialization (cache stays compact).
    let ser = manifest.commands[0].to_json();
    assert_eq!(ser.get_bool("detachable"), Some(true));

    let manifest = calendar();
    assert!(!manifest.commands[0].detachable);
    assert!(!has_field(&manifest.to_json(), "detachable"));
}

#[test]
fn icon_is_optional_and_roundtrips() {
    let mut with_icon = calendar();
    with_icon.icon =
        Some("<svg xmlns=\"http://www.w3.org/2000/svg\" viewBox=\"0 0 24 24\"></svg>".into());
    assert_eq!(
        with_icon.to_json().get_str("icon").as_deref(),
        Some("<svg xmlns=\"http://www.w3.org/2000/svg\" viewBox=\"0 0 24 24\"></svg>")
    );
    with_icon.validate().unwrap();

    // Manifests without an icon are fine.
    let without_icon = calendar();
    assert!(without_icon.icon.is_none());
    assert!(!has_field(&without_icon.to_json(), "icon"));
    without_icon.validate().unwrap();

    // An empty icon is rejected once present.
    let mut empty = with_icon;
    empty.icon = Some("   ".into());
    assert!(empty.validate().is_err());
}

#[test]
fn localized_keywords_are_accepted() {
    let mut manifest = calendar();
    manifest.commands[0].keywords = vec!["日历".into(), "rili".into()];
    assert_eq!(manifest.commands[0].keywords, vec!["日历", "rili"]);
    manifest.validate().unwrap();
}

#[test]
fn fs_roots_roundtrip_through_json() {
    let mut manifest = calendar();
    manifest.id = "com.example.reader".into();
    manifest.permissions = vec![Permission::FsRead];
    manifest.fs_roots = vec!["C:\\data".into()];
    manifest.validate().unwrap();
    let json = manifest.to_json();
    let roots = json.get_array("fs_roots").unwrap();
    assert_eq!(roots.len(), 1);
    assert_eq!(roots[0].as_str().unwrap(), "C:\\data");

    // Serialization omits an empty fs_roots (cache stays compact).
    let mut empty = manifest;
    empty.fs_roots.clear();
    assert!(!has_field(&empty.to_json(), "fs_roots"));
}

#[test]
fn every_refusal_has_its_message() {
    let message = |manifest: &PluginManifest| manifest.validate().unwrap_err().to_string();
    let mut m = calendar();
    m.id = " \t".into();
    assert_eq!(message(&m), "id must not be empty");
    m.id = "calculator".into();
    assert_eq!(
        message(&m),
        "id 'calculator' must be a reverse-domain (at least two dot-separated segments)"
    );
    for id in ["com..broken", ".com", "com.", "com.exämple", "com.a b"] {
        m.id = id.into();
        assert_eq!(
            message(&m),
            format!("id '{id}' has an invalid segment (letters, digits, '-' and '_' only)")
        );
    }
    let mut m = calendar();
    m.name = "".into();
    assert_eq!(
        message(&m),
        "plugin 'com.example.calendar': name must not be empty"
    );
    let mut m = calendar();
    m.version = "\u{3000}".into();
    assert_eq!(
        message(&m),
        "plugin 'com.example.calendar': version must not be empty"
    );
    let mut m = calendar();
    m.icon = Some("".into());
    assert_eq!(
        message(&m),
        "plugin 'com.example.calendar': icon must not be empty when present"
    );
    let mut m = calendar();
    m.fs_roots = vec!["C:".into(), " ".into()];
    assert_eq!(
        message(&m),
        "plugin 'com.example.calendar': fs_roots must not contain empty paths"
    );
    let mut m = calendar();
    m.commands.clear();
    assert_eq!(
        message(&m),
        "plugin 'com.example.calendar': at least one command is required"
    );
    let mut m = calendar();
    m.commands[0].name = "".into();
    assert_eq!(
        message(&m),
        "plugin 'com.example.calendar': command name must not be empty"
    );
    let mut m = calendar();
    m.commands[0].title = "".into();
    assert_eq!(
        message(&m),
        "plugin 'com.example.calendar': command 'calendar' title must not be empty"
    );
    let mut m = calendar();
    m.commands[0].keywords = vec!["a".into(), "".into()];
    assert_eq!(
        message(&m),
        "plugin 'com.example.calendar': command 'calendar' keyword must not be empty"
    );
    let mut m = calendar();
    m.commands[0].trigger.value = Some("x".into());
    assert_eq!(
        message(&m),
        "plugin 'com.example.calendar': command 'calendar' trigger of type 'command' takes no value"
    );
    let mut m = calendar();
    m.commands[0].trigger.kind = TriggerType::Regex;
    assert_eq!(
        message(&m),
        "plugin 'com.example.calendar': command 'calendar' trigger of type 'regex' requires a value"
    );
    m.commands[0].trigger.value = Some("(".into());
    let refused = message(&m);
    assert!(refused.starts_with(
        "plugin 'com.example.calendar': command 'calendar' has an invalid regex: regex parse error"
    ));
    m.commands[0].trigger.value = Some("^a+$".into());
    m.validate().unwrap();
    let mut m = calendar();
    m.commands.push(command("other", "Other"));
    m.commands.push(command("calendar", "Again"));
    assert_eq!(
        message(&m),
        "plugin 'com.example.calendar': duplicate command name 'calendar'"
    );
    let mut m = calendar();
    m.permissions = vec![Permission::FsRead, Permission::Network];
    assert_eq!(
        message(&m),
        "plugin 'com.example.calendar': permission 'network' is not supported in M3"
    );
}

#[test]
fn bundle_entry_is_inside_the_plugin_directory() {
    assert_eq!(entry_path("/plugins/calendar"), "/plugins/calendar/dist/index.js");
    assert_eq!(entry_path("/plugins/"), "/plugins/dist/index.js");
    assert_eq!(entry_path(""), "dist/index.js");
}
