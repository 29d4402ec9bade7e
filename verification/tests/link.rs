use steward::link::try_openable;

#[test]
fn scheme_urls_are_openable() {
    assert_eq!(
        try_openable("https://github.com"),
        Some("https://github.com".into())
    );
    assert_eq!(
        try_openable("http://example.com/path?q=1"),
        Some("http://example.com/path?q=1".into())
    );
    assert_eq!(
        try_openable("HTTPS://GITHUB.COM"),
        Some("HTTPS://GITHUB.COM".into())
    );
    assert_eq!(
        try_openable("ftp://mirror.example.com"),
        Some("ftp://mirror.example.com".into())
    );
    // A path/query containing a port-like colon must not be mangled.
    assert_eq!(
        try_openable("https://example.com:8080/path"),
        Some("https://example.com:8080/path".into())
    );
}

#[test]
fn ipv4_addresses_open_verbatim_or_with_https() {
    // A `host:port` address passes through as typed; the opener adds the
    // http scheme itself (see `open_url`), like a browser address bar.
    assert_eq!(
        try_openable("172.20.2.14:1230"),
        Some("172.20.2.14:1230".into())
    );
    assert_eq!(
        try_openable("127.0.0.1:8080"),
        Some("127.0.0.1:8080".into())
    );
    // A bare address without a port still needs a scheme to open.
    assert_eq!(
        try_openable("192.168.1.1"),
        Some("https://192.168.1.1".into())
    );
}

#[test]
fn bare_domains_and_localhost_are_openable() {
    assert_eq!(
        try_openable("github.com"),
        Some("https://github.com".into())
    );
    // host:port passes through verbatim.
    assert_eq!(
        try_openable("example.com:8443"),
        Some("example.com:8443".into())
    );
    assert_eq!(
        try_openable("localhost:3000"),
        Some("localhost:3000".into())
    );
}

#[test]
fn non_links_stay_ordinary_search() {
    assert_eq!(try_openable(""), None);
    assert_eq!(try_openable("   "), None);
    assert_eq!(try_openable("calc"), None);
    assert_eq!(try_openable("firefox"), None);
    assert_eq!(try_openable("hello world"), None);
    assert_eq!(try_openable("foo://bar"), None);
    assert_eq!(try_openable("https://"), None);
    assert_eq!(try_openable("1.2.3"), None);
    assert_eq!(try_openable("999.1.1.1"), None);
    assert_eq!(try_openable("exa mple.com"), None);
}

#[test]
fn malformed_hosts_are_rejected() {
    assert_eq!(try_openable("-foo.com"), None);
    assert_eq!(try_openable("foo..com"), None);
    assert_eq!(try_openable("example.com:port"), None);
    assert_eq!(try_openable("example.com:99999"), None);
    assert_eq!(try_openable("a"), None);
}
