use steward::scanner::{
    path_has_extension, platform_scanner, stem_of, AppScanner, NoopScanner, Shortcut,
    WinAppsScanner,
};

fn link(path: &str, target: Option<&str>) -> Shortcut {
    Shortcut { path: path.into(), target: target.map(String::from) }
}

#[test]
fn each_executable_is_listed_once() {
    let scanner = WinAppsScanner::new(vec![
        link("C:\\Menu\\Calculator.lnk", Some("C:\\calc.EXE")),
        link("C:\\Menu\\Readme.lnk", Some("C:\\readme.txt")),
        link("C:\\Menu\\Calc again.lnk", Some("C:\\calc.EXE")),
        link("C:\\Menu\\Broken.lnk", None),
        link("C:\\Menu\\Term.x64.lnk", Some("C:\\term.exe")),
    ]);
    let apps = scanner.scan();
    let names: Vec<&str> = apps.iter().map(|a| a.name.as_str()).collect();
    assert_eq!(names, ["Calculator", "Term.x64"]);
    assert_eq!(apps[0].path, "C:\\calc.EXE");
}

#[test]
fn other_platforms_list_nothing() {
    assert!(NoopScanner.scan().is_empty());
    assert!(platform_scanner(None).scan().is_empty());
    let one = platform_scanner(Some(vec![link("/m/A.lnk", Some("/a.exe"))])).scan();
    assert_eq!(one.len(), 1);
}

#[test]
fn extensions_and_stems_follow_the_last_dot() {
    assert!(path_has_extension("C:\\a\\b.LnK", "lnk"));
    assert!(!path_has_extension("C:\\a.lnk\\b", "lnk"));
    assert!(!path_has_extension(".lnk", "lnk"));
    assert!(path_has_extension("a.tar.gz", "gz"));
    assert_eq!(stem_of("C:\\a\\b.tar.gz").as_deref(), Some("b.tar"));
    assert_eq!(stem_of(".hidden").as_deref(), Some(".hidden"));
    assert_eq!(stem_of("/"), None);
    assert_eq!(stem_of(".."), None);
    assert_eq!(stem_of("."), None);
    assert_eq!(stem_of("C:"), None);
    assert_eq!(stem_of("C:b.exe").as_deref(), Some("b"));
    assert_eq!(stem_of("\\\\server\\share.exe"), None);
    assert_eq!(stem_of("\\\\server\\share\\b.exe").as_deref(), Some("b"));
    assert!(path_has_extension("C:\\a.exe\\.", "exe"));
    assert!(path_has_extension("C:\\a.exe\\.\\", "exe"));
    assert!(!path_has_extension("C:\\a.exe\\..", "exe"));
}

#[test]
fn verbatim_paths_are_taken_as_written() {
    assert_eq!(stem_of("\\\\?\\C:\\a\\b.exe").as_deref(), Some("b"));
    assert_eq!(stem_of("\\\\?\\C:\\a/b.exe").as_deref(), Some("a/b"));
    assert_eq!(stem_of("\\\\?\\C:\\a\\b.exe\\").as_deref(), Some("b"));
    assert_eq!(stem_of("\\\\?\\C:\\a\\b.exe\\."), None);
    assert_eq!(stem_of("\\\\?\\C:\\a\\b.exe\\.."), None);
    assert_eq!(stem_of("\\\\?\\C:\\b.exe/.").as_deref(), Some("b.exe/"));
    assert_eq!(stem_of("\\\\?\\C:"), None);
    assert_eq!(stem_of("\\\\?\\C:b.exe"), None);
    assert_eq!(stem_of("\\\\?\\name.exe"), None);
    assert_eq!(stem_of("\\\\?\\name\\b.exe").as_deref(), Some("b"));
    assert_eq!(stem_of("\\\\?\\UNC\\server\\share.exe"), None);
    assert_eq!(stem_of("\\\\?\\UNC\\server\\share\\b.exe").as_deref(), Some("b"));
    assert!(path_has_extension("\\\\?\\C:\\Program Files\\b.EXE", "exe"));
    // With other separators in front a path is an ordinary one.
    assert_eq!(stem_of("//?/C:/a/b.exe").as_deref(), Some("b"));
}
