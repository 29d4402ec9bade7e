use steward::manifest::{Isolation, PluginCommand, PluginManifest, Trigger, TriggerType};
use steward::registry::{FoundPlugin, PluginCache, ScanReport};

const ROOT: &str = "/data/plugins";

fn plugin(id: &str, version: &str, trigger: &str) -> FoundPlugin {
    let manifest = PluginManifest {
        id: id.into(),
        name: format!("Test {id}"),
        version: version.into(),
        icon: None,
        fs_roots: Vec::new(),
        commands: vec![PluginCommand {
            name: "cmd".into(),
            title: "Command".into(),
            trigger: Trigger { kind: TriggerType::Prefix, value: Some(trigger.into()) },
            detachable: false,
            keywords: Vec::new(),
        }],
        permissions: Vec::new(),
        isolation: Isolation::SharedPool,
    };
    FoundPlugin { dir: format!("{ROOT}/{id}"), manifest: Ok(manifest) }
}

fn dirs(found: &[FoundPlugin]) -> Vec<String> {
    found.iter().map(|f| f.dir.clone()).collect()
}

#[test]
fn scan_then_cached_roundtrip() {
    let mut registry = PluginCache::new(&Vec::new());
    let found =
        vec![plugin("com.test.alpha", "1.0.0", "alpha "), plugin("com.test.beta", "1.0.0", "beta ")];
    let present = dirs(&found);

    let plan = registry.scan(&found, &present, 7);
    assert_eq!(plan.report.inserted, 2);
    assert_eq!(plan.report.plugins, 2);
    assert_eq!(plan.report.unchanged, 0);
    assert_eq!(plan.write.len(), 2);
    assert!(plan.remove.is_empty());

    assert_eq!(registry.len(), 2);
    let alpha = registry.get("com.test.alpha").unwrap();
    assert_eq!(alpha.manifest.name, "Test com.test.alpha");
    assert_eq!(alpha.entry, format!("{ROOT}/com.test.alpha/dist/index.js"));
    assert_eq!(alpha.dir, format!("{ROOT}/com.test.alpha"));
    assert_eq!(alpha.scanned_at, 7);
}

#[test]
fn scan_is_incremental_on_version_change() {
    let mut registry = PluginCache::new(&Vec::new());
    let found = vec![plugin("com.test.alpha", "1.0.0", "alpha ")];
    let present = dirs(&found);

    registry.scan(&found, &present, 1);
    let plan = registry.scan(&found, &present, 2);
    assert_eq!(plan.report.unchanged, 1);
    assert_eq!(plan.report.updated, 0);
    assert!(plan.write.is_empty());
    assert_eq!(registry.get("com.test.alpha").unwrap().scanned_at, 1);

    let found = vec![plugin("com.test.alpha", "1.1.0", "alpha ")];
    let plan = registry.scan(&found, &present, 3);
    assert_eq!(plan.report.updated, 1);
    assert_eq!(plan.report.unchanged, 0);
    assert_eq!(registry.get("com.test.alpha").unwrap().manifest.version, "1.1.0");
}

#[test]
fn removed_plugin_directory_is_pruned() {
    let mut registry = PluginCache::new(&Vec::new());
    let found =
        vec![plugin("com.test.alpha", "1.0.0", "alpha "), plugin("com.test.beta", "1.0.0", "beta ")];
    registry.scan(&found, &dirs(&found), 1);

    let found = vec![plugin("com.test.alpha", "1.0.0", "alpha ")];
    let plan = registry.scan(&found, &dirs(&found), 2);
    assert_eq!(plan.report.removed, 1);
    assert_eq!(plan.report.plugins, 1);
    assert_eq!(plan.remove, vec!["com.test.beta".to_string()]);
    assert!(registry.get("com.test.beta").is_none());
}

#[test]
fn invalid_manifest_is_reported_and_not_cached() {
    let mut registry = PluginCache::new(&Vec::new());
    let found = vec![
        plugin("com.test.alpha", "1.0.0", "alpha "),
        FoundPlugin {
            dir: format!("{ROOT}/com.test.bad"),
            manifest: Err("unknown permission".into()),
        },
    ];
    let plan = registry.scan(&found, &dirs(&found), 1);
    assert_eq!(plan.report.inserted, 1);
    assert_eq!(plan.report.failed.len(), 1);
    assert!(plan.report.failed[0].contains("com.test.bad"));
    assert_eq!(plan.report.failed[0], format!("{ROOT}/com.test.bad: unknown permission"));
    assert_eq!(registry.len(), 1);
    assert!(registry.get("com.test.alpha").is_some());
}

#[test]
fn plugin_that_turns_invalid_is_dropped() {
    let mut registry = PluginCache::new(&Vec::new());
    let found = vec![plugin("com.test.alpha", "1.0.0", "alpha ")];
    let present = dirs(&found);
    registry.scan(&found, &present, 1);

    let broken = vec![FoundPlugin { dir: present[0].clone(), manifest: Err("broken".into()) }];
    let plan = registry.scan(&broken, &present, 2);
    assert_eq!(plan.report.removed, 1);
    assert_eq!(registry.len(), 0);
}

#[test]
fn counts_add_up() {
    let mut registry = PluginCache::new(&Vec::new());
    let found = vec![
        plugin("com.test.alpha", "1.0.0", "alpha "),
        plugin("com.test.beta", "1.0.0", "beta "),
    ];
    registry.scan(&found, &dirs(&found), 1);
    let next = vec![
        plugin("com.test.alpha", "1.1.0", "alpha "),
        plugin("com.test.gamma", "1.0.0", "gamma "),
        FoundPlugin { dir: format!("{ROOT}/bad"), manifest: Err("broken".into()) },
    ];
    let before = registry.len();
    let report = registry.scan(&next, &dirs(&next), 2).report;
    assert_eq!(report.plugins, before + report.inserted - report.removed);
    assert_eq!(report.plugins, registry.len());
    assert_eq!(
        report.inserted + report.updated + report.unchanged + report.failed.len(),
        next.len()
    );
}

#[test]
fn missing_root_changes_nothing() {
    let mut registry = PluginCache::new(&Vec::new());
    let found = vec![plugin("com.test.alpha", "1.0.0", "alpha ")];
    registry.scan_root(Some(&found), &dirs(&found), 1);
    assert_eq!(registry.len(), 1);
    let plan = registry.scan_root(None, &Vec::new(), 2);
    assert_eq!(plan.report, ScanReport::default());
    assert!(plan.write.is_empty() && plan.remove.is_empty());
    assert_eq!(registry.len(), 1);
}
