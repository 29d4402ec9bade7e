use steward::engine::{AppEntry, Engine};
use steward::search::{pinyin_variants, search_haystacks};

const FREQ_WEIGHT: f64 = 20.0;

fn query(engine: &Engine, query: &str, freq: &dyn Fn(&str) -> u32) -> Vec<AppEntry> {
    let found = engine.matches(query);
    let mut counts = Vec::new();
    let mut ranks = Vec::new();
    for app in &found {
        let count = freq(&engine.entries()[app.index].path);
        let rank = app.score as f64 + FREQ_WEIGHT * (1.0 + count as f64).ln();
        counts.push(count);
        ranks.push(rank.to_bits());
    }
    engine.query(query, &found, &counts, &ranks)
}

fn entries() -> Vec<AppEntry> {
    vec![
        AppEntry {
            name: "Calculator".into(),
            path: "C:/calc.exe".into(),
        },
        AppEntry {
            name: "Firefox".into(),
            path: "C:/firefox.exe".into(),
        },
        AppEntry {
            name: "Calculator Pro".into(),
            path: "D:/calcpro.exe".into(),
        },
        AppEntry {
            name: "Terminal".into(),
            path: "C:/terminal.exe".into(),
        },
    ]
}

const NO_FREQ: fn(&str) -> u32 = |_| 0;

#[test]
fn empty_query_returns_all_entries() {
    let mut engine = Engine::new();
    engine.set_entries(entries());
    assert_eq!(query(&engine, "", &NO_FREQ).len(), 4);
    assert_eq!(query(&engine, "   ", &NO_FREQ).len(), 4);
}

#[test]
fn fuzzy_matches_subsequence_ignoring_case() {
    let mut engine = Engine::new();
    engine.set_entries(entries());
    let result = query(&engine, "calc", &NO_FREQ);
    assert_eq!(result.len(), 2);
    assert!(result.iter().all(|a| a.name.contains("Calculator")));
}

#[test]
fn lowercase_query_matches_ignoring_case() {
    let mut engine = Engine::new();
    engine.set_entries(entries());
    // nucleo default config is case-insensitive.
    assert_eq!(query(&engine, "firefox", &NO_FREQ).len(), 1);
}

#[test]
fn no_match_on_empty_index() {
    let engine = Engine::new();
    assert!(query(&engine, "calc", &NO_FREQ).is_empty());
}

#[test]
fn frequent_app_ranks_higher() {
    let mut engine = Engine::new();
    engine.set_entries(entries());
    let freq = |path: &str| if path == "D:/calcpro.exe" { 50 } else { 0 };
    let result = query(&engine, "calc", &freq);
    assert_eq!(result[0].path, "D:/calcpro.exe");
}

#[test]
fn empty_query_sorts_most_used_first() {
    let mut engine = Engine::new();
    engine.set_entries(entries());
    let freq = |path: &str| match path {
        "C:/terminal.exe" => 30,
        "C:/firefox.exe" => 10,
        _ => 0,
    };
    let result = query(&engine, "", &freq);
    assert_eq!(result[0].name, "Terminal");
    assert_eq!(result[1].name, "Firefox");
}

fn chinese_entries() -> Vec<AppEntry> {
    vec![
        AppEntry {
            name: "终端".into(),
            path: "C:/terminal-cn.lnk".into(),
        },
        AppEntry {
            name: "自动播放".into(),
            path: "C:/autoplay-cn.lnk".into(),
        },
        AppEntry {
            name: "设置向导".into(),
            path: "C:/wizard-cn.lnk".into(),
        },
        AppEntry {
            name: "QQ音乐".into(),
            path: "C:/qqmusic-cn.lnk".into(),
        },
        AppEntry {
            name: "Steward".into(),
            path: "C:/steward.exe".into(),
        },
    ]
}

#[test]
fn pinyin_initials_match_chinese_names() {
    let mut engine = Engine::new();
    engine.set_entries(chinese_entries());
    let result = query(&engine, "zd", &NO_FREQ);
    let names: Vec<_> = result.iter().map(|a| a.name.as_str()).collect();
    assert!(
        names.contains(&"终端"),
        "zd should find 终端, got {names:?}"
    );
    assert!(
        names.contains(&"自动播放"),
        "zd should find 自动播放, got {names:?}"
    );
    assert!(
        names.contains(&"设置向导"),
        "zd should find 设置向导, got {names:?}"
    );
}

#[test]
fn pinyin_full_spelling_matches() {
    let mut engine = Engine::new();
    engine.set_entries(chinese_entries());
    assert!(query(&engine, "zidong", &NO_FREQ)
        .iter()
        .any(|a| a.name == "自动播放"));
    assert!(query(&engine, "shezhi", &NO_FREQ)
        .iter()
        .any(|a| a.name == "设置向导"));
    assert!(query(&engine, "zhongduan", &NO_FREQ)
        .iter()
        .any(|a| a.name == "终端"));
}

#[test]
fn pinyin_with_spaces_matches() {
    let mut engine = Engine::new();
    engine.set_entries(chinese_entries());
    assert!(query(&engine, "zi dong", &NO_FREQ)
        .iter()
        .any(|a| a.name == "自动播放"));
}

#[test]
fn mixed_latin_chinese_matches_by_both_parts() {
    let mut engine = Engine::new();
    engine.set_entries(chinese_entries());
    assert!(query(&engine, "qq", &NO_FREQ)
        .iter()
        .any(|a| a.name == "QQ音乐"));
    assert!(query(&engine, "yy", &NO_FREQ)
        .iter()
        .any(|a| a.name == "QQ音乐"));
}

#[test]
fn polyphone_names_match_all_readings() {
    let mut engine = Engine::new();
    engine.set_entries(chinese_entries());
    // 乐 is polyphonic: yue (music) and le (happy). Both readings must be
    // searchable so "QQ音乐" is found by its actual pronunciation.
    assert!(query(&engine, "yinyue", &NO_FREQ)
        .iter()
        .any(|a| a.name == "QQ音乐"));
    assert!(query(&engine, "yinle", &NO_FREQ)
        .iter()
        .any(|a| a.name == "QQ音乐"));
}

#[test]
fn pinyin_query_does_not_match_unrelated_latin_names() {
    let mut engine = Engine::new();
    engine.set_entries(chinese_entries());
    // "zd" has no z/d in "Steward" (or "Firefox"), so pure-Latin entries
    // must not leak into pinyin results.
    assert!(!query(&engine, "zd", &NO_FREQ)
        .iter()
        .any(|a| a.name == "Steward"));
}

#[test]
fn queries_in_capitals_match_too() {
    let mut engine = Engine::new();
    engine.set_entries(vec![
        AppEntry { name: "Calculator".into(), path: "C:/calc.exe".into() },
        AppEntry { name: "Microsoft Word".into(), path: "C:/word.exe".into() },
        AppEntry { name: "Édition".into(), path: "C:/ed.exe".into() },
    ]);
    for (text, path) in [("CALC", "C:/calc.exe"), ("MW", "C:/word.exe"), ("Micro", "C:/word.exe")] {
        let found = query(&engine, text, &|_| 0);
        assert_eq!(found.len(), 1, "{text}");
        assert_eq!(found[0].path, path);
    }
    assert_eq!(query(&engine, "DITION", &|_| 0).len(), 1);
}

#[test]
fn long_queries_are_answered() {
    let mut engine = Engine::new();
    let long = "a ".repeat(2000);
    let wide = "日".repeat(1300);
    engine.set_entries(vec![
        AppEntry { name: long.clone(), path: "long".into() },
        AppEntry { name: wide.clone(), path: "wide".into() },
    ]);
    let short_needle = query(&engine, &"A ".repeat(1260), &|_| 0);
    assert_eq!(short_needle.len(), 1);
    assert_eq!(short_needle[0].path, "long");
    // 3900 bytes, in a name of 1300 characters.
    let found = query(&engine, &wide, &|_| 0);
    assert_eq!(found.len(), 1);
    assert_eq!(found[0].path, "wide");
}

#[test]
fn latin_names_have_no_pinyin_forms() {
    assert!(pinyin_variants("Firefox").is_empty());
    assert!(pinyin_variants("Visual Studio").is_empty());
    assert_eq!(search_haystacks("Firefox"), vec!["Firefox".to_string()]);
    assert!(pinyin_variants("QQ音乐").contains(&"qqyinyue".to_string()));
}
