use steward::desktop::{
    bgra_to_rgba, expand_env_vars, launch_route, toggle_launcher, url_to_open, ForegroundWatch,
    LaunchRoute, Summon,
};

#[test]
fn shortcuts_and_shell_names_go_to_the_shell() {
    assert_eq!(launch_route("shell:AppsFolder\\Some.App"), LaunchRoute::Shell);
    assert_eq!(launch_route("C:\\Menu\\Calc.LNK"), LaunchRoute::Shell);
    assert_eq!(launch_route("C:\\calc.exe"), LaunchRoute::Process);
    assert_eq!(launch_route("lnk"), LaunchRoute::Process);
}

#[test]
fn addresses_without_a_scheme_get_one() {
    assert_eq!(url_to_open("example.com/a"), "http://example.com/a");
    assert_eq!(url_to_open("https://example.com"), "https://example.com");
    assert_eq!(url_to_open("localhost:3000"), "http://localhost:3000");
}

#[test]
fn variables_are_expanded() {
    let vars = vec![
        ("windir".to_string(), "C:\\Windows".to_string()),
        ("A".to_string(), "1".to_string()),
    ];
    assert_eq!(expand_env_vars("%WINDIR%\\notepad.exe", &vars), "C:\\Windows\\notepad.exe");
    assert_eq!(expand_env_vars("%a%%a%", &vars), "11");
    // Unknown names and single signs stay; what follows is still expanded.
    assert_eq!(expand_env_vars("%nope%A%", &vars), "%nope1");
    assert_eq!(expand_env_vars("100%", &vars), "100%");
    assert_eq!(expand_env_vars("plain", &vars), "plain");
}

#[test]
fn red_and_blue_change_places() {
    let bgra = vec![1, 2, 3, 4, 5, 6, 7, 8];
    let rgba = bgra_to_rgba(&bgra);
    assert_eq!(rgba, vec![3, 2, 1, 4, 7, 6, 5, 8]);
    assert_eq!(bgra_to_rgba(&rgba), bgra);
    assert_eq!(bgra_to_rgba(&vec![1, 2, 3, 4, 9]), vec![3, 2, 1, 4, 0]);
}

#[test]
fn launcher_hides_when_another_window_comes_to_the_front() {
    let mut watch = ForegroundWatch::new();
    // The first look only takes note of what is in front.
    assert!(!watch.look(true, 1, 9, false));
    assert!(!watch.look(true, 1, 9, false));
    assert!(!watch.look(true, 1, 1, false));
    assert!(!watch.look(true, 1, 7, true));
    assert!(watch.look(true, 1, 8, false));
    // Hidden: the next look is a first one.
    assert!(!watch.look(false, 1, 8, false));
    assert!(!watch.look(true, 1, 5, false));
}

#[test]
fn summoning_toggles() {
    assert_eq!(toggle_launcher(false, false), Summon::Open);
    assert_eq!(toggle_launcher(true, true), Summon::Hide);
    assert_eq!(toggle_launcher(true, false), Summon::Show);
}
