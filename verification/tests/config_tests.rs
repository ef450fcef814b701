use penguin::Builder;
use penguin::ConfigError;
use penguin::ProxyTarget;
use penguin::Scheme;
use penguin::config::parse_mount;
use penguin::config::parse_u64;
use penguin::config::parse_duration;
use penguin::normalize_path;

fn target(scheme: Scheme, authority: &str) -> ProxyTarget {
    ProxyTarget { scheme, authority: authority.to_string() }
}

#[test]
fn parse_proxy_target() {
    assert_eq!(
        ProxyTarget::parse("localhost").unwrap(),
        target(Scheme::Http, "localhost"),
    );
    assert_eq!(
        ProxyTarget::parse("localhost:8000").unwrap(),
        target(Scheme::Http, "localhost:8000"),
    );
    assert_eq!(
        ProxyTarget::parse("https://127.0.0.1:30").unwrap(),
        target(Scheme::Https, "127.0.0.1:30"),
    );
    assert_eq!(
        ProxyTarget::parse("http://github.com").unwrap(),
        target(Scheme::Http, "github.com"),
    );
    assert_eq!(
        ProxyTarget::parse("https://github.com/").unwrap(),
        target(Scheme::Https, "github.com"),
    );
}

#[test]
fn parse_proxy_target_bad() {
    assert!(matches!(
        ProxyTarget::parse("").unwrap_err(),
        penguin::config::ProxyTargetParseError::InvalidUri,
    ));
    assert!(matches!(
        ProxyTarget::parse("github.com").unwrap_err(),
        penguin::config::ProxyTargetParseError::MissingScheme,
    ));
    assert!(matches!(
        ProxyTarget::parse("https://").unwrap_err(),
        penguin::config::ProxyTargetParseError::InvalidUri,
    ));
    assert!(matches!(
        ProxyTarget::parse("http://github.com/foo").unwrap_err(),
        penguin::config::ProxyTargetParseError::HasPath,
    ));
}

#[test]
fn parse_proxy_target_loopback_quad() {
    assert_eq!(
        ProxyTarget::parse("127.0.0.1:8000").unwrap(),
        target(Scheme::Http, "127.0.0.1:8000"),
    );
    assert!(matches!(
        ProxyTarget::parse("10.0.0.1:8000").unwrap_err(),
        penguin::config::ProxyTargetParseError::MissingScheme,
    ));
}

#[test]
fn normalize_path_cases() {
    let mut p = String::from("assets/");
    normalize_path(&mut p);
    assert_eq!(p, "/assets");

    let mut p = String::from("/");
    normalize_path(&mut p);
    assert_eq!(p, "/");

    let mut p = String::from("");
    normalize_path(&mut p);
    assert_eq!(p, "/");

    let mut p = String::from("/a/b/");
    normalize_path(&mut p);
    assert_eq!(p, "/a/b");
}

#[test]
fn add_mount_rejects_duplicates() {
    let b = Builder::new("127.0.0.1:4090".to_string());
    let b = b.add_mount("/a".to_string(), "./x".to_string()).unwrap();
    let err = b
        .clone()
        .add_mount("a/".to_string(), "./y".to_string())
        .unwrap_err();
    match err {
        ConfigError::DuplicateUriPath(p) => assert_eq!(p, "/a"),
        other => panic!("unexpected error: {:?}", other),
    }
    // A different path is fine.
    b.add_mount("/b".to_string(), "./y".to_string()).unwrap();
}

#[test]
fn validate_rejects_empty_config() {
    let err = Builder::new("127.0.0.1:4090".to_string()).validate().unwrap_err();
    assert!(matches!(err, ConfigError::NoProxyOrMount));
}

#[test]
fn validate_rejects_proxy_with_root_mount() {
    let b = Builder::new("127.0.0.1:4090".to_string())
        .proxy(target(Scheme::Http, "localhost:8000"))
        .add_mount("/".to_string(), "./static".to_string())
        .unwrap();
    let err = b.validate().unwrap_err();
    assert!(matches!(err, ConfigError::ProxyAndRootMount));
}

#[test]
fn validate_accepts_mounts_only() {
    let config = Builder::new("127.0.0.1:4090".to_string())
        .add_mount("/".to_string(), "./static".to_string())
        .unwrap()
        .validate()
        .unwrap();
    assert_eq!(config.control_path(), "/~~penguin");
    assert_eq!(config.mounts().len(), 1);
    assert!(config.proxy().is_none());
}

#[test]
fn parse_u64_cases() {
    assert_eq!(parse_u64("0"), Some(0));
    assert_eq!(parse_u64("200"), Some(200));
    assert_eq!(parse_u64("+7"), Some(7));
    assert_eq!(parse_u64("18446744073709551615"), Some(u64::MAX));
    assert_eq!(parse_u64("18446744073709551616"), None);
    assert_eq!(parse_u64(""), None);
    assert_eq!(parse_u64("+"), None);
    assert_eq!(parse_u64("12a"), None);
    assert_eq!(parse_u64("-3"), None);
}

#[test]
fn parse_duration_cases() {
    assert_eq!(parse_duration("200").unwrap(), std::time::Duration::from_millis(200));
    assert_eq!(parse_duration("abc").unwrap_err(), "failed to parse as positive integer");
}

#[test]
fn parse_mount_cases() {
    let m = parse_mount("assets:/home/someone/images").unwrap();
    assert_eq!(m.uri_path, "/assets");
    assert_eq!(m.fs_path, "/home/someone/images");

    let m = parse_mount("/a/:./x").unwrap();
    assert_eq!(m.uri_path, "/a");
    assert_eq!(m.fs_path, "./x");

    assert_eq!(parse_mount("no-colon-here").unwrap_err(), "does not contain a colon");
}
