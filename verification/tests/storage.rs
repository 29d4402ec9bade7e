use steward::engine::AppEntry;
use steward::storage::{is_cache_fresh, stale_paths, ClipboardRecorder, MAX_TEXT_LEN};

const SECOND: u128 = 1_000_000_000;

fn app(name: &str, path: &str) -> AppEntry {
    AppEntry { name: name.into(), path: path.into() }
}

#[test]
fn scan_is_trusted_for_a_day() {
    let scanned = Some("1000");
    assert!(is_cache_fresh(scanned, 1000 * SECOND));
    assert!(is_cache_fresh(scanned, (1000 + 86_399) * SECOND));
    assert!(!is_cache_fresh(scanned, (1000 + 86_400) * SECOND));
    // A scan in the future is not trusted.
    assert!(!is_cache_fresh(scanned, 999 * SECOND));
    assert!(is_cache_fresh(Some("+1000"), 1000 * SECOND));
    assert!(!is_cache_fresh(Some("soon"), 1000 * SECOND));
    assert!(!is_cache_fresh(Some(""), 1000 * SECOND));
    assert!(!is_cache_fresh(Some("-1"), 1000 * SECOND));
    assert!(!is_cache_fresh(Some("18446744073709551616"), 1000 * SECOND));
    assert!(!is_cache_fresh(None, 1000 * SECOND));
}

#[test]
fn apps_that_a_scan_missed_are_stale() {
    let stored = vec!["C:/calc.exe".to_string(), "C:/term.exe".into(), "C:/paint.exe".into()];
    let found = vec![app("Calculator", "C:/calc.exe"), app("Paint", "C:/paint.exe")];
    assert_eq!(stale_paths(&stored, &found), vec!["C:/term.exe".to_string()]);
    assert!(stale_paths(&Vec::new(), &found).is_empty());
}

#[test]
fn clipboard_changes_are_recorded_once() {
    let mut recorder = ClipboardRecorder::new();
    assert_eq!(recorder.observe("hello \n").as_deref(), Some("hello"));
    assert_eq!(recorder.observe("hello"), None);
    assert_eq!(recorder.observe("world").as_deref(), Some("world"));
    assert_eq!(recorder.observe("hello").as_deref(), Some("hello"));
    assert_eq!(recorder.observe(" \t"), None);
    assert_eq!(recorder.observe(&"x".repeat(MAX_TEXT_LEN + 1)), None);
    assert_eq!(recorder.observe(&"é".repeat(MAX_TEXT_LEN / 2 + 1)), None);
    assert!(recorder.observe(&"x".repeat(MAX_TEXT_LEN)).is_some());
}
