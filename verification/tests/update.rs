use gluttony::update::{is_newer, newer_release, parse_semver, trim_v};

#[test]
fn detects_newer_version() {
    assert!(is_newer("0.2.0", "0.1.0"));
    assert!(is_newer("1.0.0", "0.9.9"));
    assert!(is_newer("0.1.1", "0.1.0"));
}

#[test]
fn rejects_same_or_older() {
    assert!(!is_newer("0.1.0", "0.1.0"));
    assert!(!is_newer("0.0.9", "0.1.0"));
}

#[test]
fn parses_short_versions() {
    assert_eq!(parse_semver("1"), (1, 0, 0));
    assert_eq!(parse_semver("1.2"), (1, 2, 0));
    assert_eq!(parse_semver("1.2.3"), (1, 2, 3));
}

#[test]
fn parses_like_str_parse() {
    assert_eq!(parse_semver(""), (0, 0, 0));
    assert_eq!(parse_semver("1.x.3"), (1, 3, 0));
    assert_eq!(parse_semver("+4.05.6.7"), (4, 5, 6));
    assert_eq!(parse_semver("1.-2.3"), (1, 3, 0));
    assert_eq!(parse_semver("4294967295.4294967296.2"), (4294967295, 2, 0));
    assert_eq!(parse_semver("1..2"), (1, 2, 0));
    assert_eq!(parse_semver("+.1"), (1, 0, 0));
    assert_eq!(parse_semver("1.0.0-beta"), (1, 0, 0));
}

#[test]
fn version_order_is_strict() {
    assert!(!is_newer("2.3.4", "2.3.4"));
    assert!(is_newer("2.0.0", "1.99.99"));
    assert!(!is_newer("1.99.99", "2.0.0"));
    assert!(is_newer("10.0.0", "9.0.0"));
}

#[test]
fn written_version_reads_back() {
    let v = format!("{}.{}.{}", 12, 0, 4294967295u32);
    assert_eq!(parse_semver(&v), (12, 0, 4294967295));
}

#[test]
fn release_tag_without_v() {
    assert_eq!(trim_v("v0.2.0"), "0.2.0");
    assert_eq!(trim_v("vv1"), "1");
    assert_eq!(trim_v("0.2.0"), "0.2.0");
    assert_eq!(trim_v("v"), "");
    assert_eq!(newer_release("v0.3.0", "0.2.9"), Some("0.3.0".to_string()));
    assert_eq!(newer_release("v0.2.0", "0.2.0"), None);
}
