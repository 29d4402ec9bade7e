use steward::manifest::{PluginCommand, Trigger, TriggerType};
use steward::route::{RouteIndex, DYNAMIC_DEADLINE_MS};

fn command(name: &str, kind: TriggerType, value: Option<&str>) -> PluginCommand {
    PluginCommand {
        name: name.into(),
        title: format!("Title {name}"),
        trigger: Trigger {
            kind,
            value: value.map(str::to_string),
        },
        detachable: false,
        keywords: Vec::new(),
    }
}

#[test]
fn command_trigger_matches_exact_and_prefixed_queries() {
    let mut index = RouteIndex::new();
    index.add_plugin(
        "com.example.calendar",
        &[command("calendar", TriggerType::Command, None)],
    );
    let hits = index.match_query("calendar");
    assert_eq!(hits.len(), 1);
    assert_eq!(hits[0].input, "calendar");

    let hits = index.match_query("calendar tomorrow");
    assert_eq!(hits.len(), 1);
    assert_eq!(hits[0].input, "calendar tomorrow");

    assert!(index.match_query("calendarx").is_empty());
}

#[test]
fn command_trigger_fuzzy_matches_partial_names_like_app_search() {
    let mut index = RouteIndex::new();
    index.add_plugin(
        "com.example.calendar",
        &[command("calendar", TriggerType::Command, None)],
    );
    // Prefix of the name matches without typing the full command.
    assert_eq!(index.match_query("cal").len(), 1);
    assert_eq!(index.match_query("calend").len(), 1);
    // Subsequence ("fuzzy") matches work too, ignoring case.
    assert_eq!(index.match_query("cldr").len(), 1);
    assert_eq!(index.match_query("CAL").len(), 1);
    // A word that merely starts with the name still does not match.
    assert!(index.match_query("calendarx").is_empty());
}

#[test]
fn command_fuzzy_hits_rank_exact_before_fuzzy() {
    let mut index = RouteIndex::new();
    index.add_plugin(
        "com.example.short",
        &[
            command("cal", TriggerType::Command, None),
            command("calendar", TriggerType::Command, None),
        ],
    );
    let hits = index.match_query("cal");
    assert_eq!(hits.len(), 2);
    assert_eq!(hits[0].command, "cal", "exact match ranks first");
    assert_eq!(hits[1].command, "calendar", "fuzzy match follows");
}

#[test]
fn command_trigger_matches_localized_keywords() {
    let mut index = RouteIndex::new();
    index.add_plugin(
        "com.example.calendar",
        &[PluginCommand {
            keywords: vec!["日历".into()],
            ..command("calendar", TriggerType::Command, None)
        }],
    );
    // The plugin's own localized keyword matches directly...
    assert_eq!(index.match_query("日历").len(), 1);
    // ...and its pinyin forms match too, like app search.
    assert_eq!(index.match_query("rili").len(), 1, "full pinyin");
    assert_eq!(index.match_query("rl").len(), 1, "pinyin initials");
    // A word merely containing the keyword still does not match.
    assert!(index.match_query("日历x").is_empty());
}

#[test]
fn prefix_trigger_strips_prefix_and_prefers_longest() {
    let mut index = RouteIndex::new();
    index.add_plugin(
        "com.example.short",
        &[command("short", TriggerType::Prefix, Some("cal "))],
    );
    index.add_plugin(
        "com.example.long",
        &[command("long", TriggerType::Prefix, Some("calc "))],
    );
    let hits = index.match_query("calc something");
    assert_eq!(hits.len(), 1, "only the longest prefix may fire");
    assert_eq!(hits[0].plugin_id, "com.example.long");
    assert_eq!(hits[0].input, "something");

    let hits = index.match_query("cal something");
    assert_eq!(hits.len(), 1);
    assert_eq!(hits[0].plugin_id, "com.example.short");
    assert_eq!(hits[0].input, "something");
}

#[test]
fn regex_trigger_matches_pattern() {
    let mut index = RouteIndex::new();
    index.add_plugin(
        "com.example.regex",
        &[command("match", TriggerType::Regex, Some(r"^open github/"))],
    );
    assert_eq!(index.match_query("open github/steward").len(), 1);
    assert!(index.match_query("open gitlab/steward").is_empty());
}

#[test]
fn dynamic_routes_always_participate_with_short_deadline() {
    let mut index = RouteIndex::new();
    index.add_plugin(
        "com.example.dynamic",
        &[command("search", TriggerType::Dynamic, None)],
    );
    let empty = index.match_query("");
    assert_eq!(empty.len(), 1);
    assert_eq!(empty[0].deadline_ms, DYNAMIC_DEADLINE_MS);
    let full = index.match_query("anything at all");
    assert_eq!(full.len(), 1);
    assert_eq!(full[0].input, "anything at all");
}

#[test]
fn precedence_is_command_then_prefix_then_regex_then_dynamic() {
    let mut index = RouteIndex::new();
    index.add_plugin("dyn", &[command("d", TriggerType::Dynamic, None)]);
    index.add_plugin("regex", &[command("r", TriggerType::Regex, Some("cal"))]);
    index.add_plugin("prefix", &[command("p", TriggerType::Prefix, Some("cal "))]);
    index.add_plugin("cmd", &[command("cal", TriggerType::Command, None)]);
    let hits = index.match_query("cal x");
    let kinds = hits
        .iter()
        .map(|hit| hit.plugin_id.as_str())
        .collect::<Vec<_>>();
    assert_eq!(kinds, vec!["cmd", "prefix", "regex", "dyn"]);
}

#[test]
fn remove_plugin_drops_all_routes() {
    let mut index = RouteIndex::new();
    index.add_plugin(
        "com.example.one",
        &[
            command("a", TriggerType::Command, None),
            command("b", TriggerType::Dynamic, None),
        ],
    );
    index.add_plugin(
        "com.example.two",
        &[command("c", TriggerType::Command, None)],
    );
    assert_eq!(index.len(), 3);
    index.remove_plugin("com.example.one");
    assert_eq!(index.len(), 1);
    assert!(index.match_query("a").is_empty());
    assert_eq!(index.match_query("c").len(), 1);
}

#[test]
fn large_index_matches_without_degradation() {
    // Cold-start and search cost must scale with active plugins, not the
    // installed count: a 1000-command index matches in one pass.
    let mut index = RouteIndex::new();
    let mut commands = Vec::new();
    for i in 0..1000 {
        commands.push(command(&format!("cmd{i}"), TriggerType::Command, None));
    }
    index.add_plugin("com.example.many", &commands);
    assert_eq!(index.len(), 1000);
    assert_eq!(index.match_query("cmd999").len(), 1);
}

#[test]
fn every_route_is_listed() {
    let mut index = RouteIndex::new();
    index.add_plugin(
        "p",
        &[
            command("d", TriggerType::Dynamic, None),
            command("c", TriggerType::Command, None),
            command("x", TriggerType::Prefix, Some("=")),
            command("r", TriggerType::Regex, Some("^[0-9]+$")),
        ],
    );
    let names: Vec<String> = index.all_routes().into_iter().map(|hit| hit.command).collect();
    assert_eq!(names, ["c", "x", "r", "d"]);
    assert_eq!(index.len(), 4);
    assert!(!index.is_empty());
    index.clear();
    assert!(index.is_empty());
}

#[test]
fn adding_a_plugin_keeps_the_other_routes() {
    let mut index = RouteIndex::new();
    index.add_plugin("a", &[command("short", TriggerType::Prefix, Some("="))]);
    let mut before: Vec<String> = index.all_routes().iter().map(|hit| format!("{hit:?}")).collect();
    index.add_plugin(
        "b",
        &[
            command("long", TriggerType::Prefix, Some("==")),
            command("all", TriggerType::Dynamic, None),
        ],
    );
    let after = index.all_routes();
    // Longest prefix first; dynamic routes have the short deadline.
    assert_eq!(after[0].command, "long");
    assert_eq!(after[0].deadline_ms, 500);
    assert_eq!(after[2].deadline_ms, DYNAMIC_DEADLINE_MS);
    let mut shown: Vec<String> = after.iter().map(|hit| format!("{hit:?}")).collect();
    before.push(shown[0].clone());
    before.push(shown[2].clone());
    before.sort();
    shown.sort();
    assert_eq!(shown, before);
}
