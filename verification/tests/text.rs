use gluttony::paths::join;
use gluttony::sort::sort_desc_stable;
use gluttony::text::{decimal_string, pad_left, pad_right, str_eq};
use gluttony::scanner::{Artifact, ArtifactKind, Platform};

#[test]
fn decimals() {
    assert_eq!(decimal_string(0), "0");
    assert_eq!(decimal_string(1_000_000), "1000000");
    assert_eq!(decimal_string(u64::MAX), "18446744073709551615");
}

#[test]
fn padding() {
    assert_eq!(pad_right("ab", 4), "ab  ");
    assert_eq!(pad_left("ab", 4), "  ab");
    assert_eq!(pad_left("abcdef", 4), "abcdef");
    assert_eq!(pad_right("é", 3), "é  ");
}

#[test]
fn equality_of_text() {
    assert!(str_eq("node_modules", "node_modules"));
    assert!(!str_eq("node_module", "node_modules"));
    assert!(str_eq("", ""));
}

#[test]
fn joining_paths() {
    assert_eq!(join("/a", "b", Platform::Linux), "/a/b");
    assert_eq!(join("/a/", "b", Platform::Linux), "/a/b");
    assert_eq!(join("", "b", Platform::Linux), "b");
    assert_eq!(join("C:\\Users\\ann", "b", Platform::Windows), "C:\\Users\\ann\\b");
    assert_eq!(join("C:\\Users\\ann\\", "b", Platform::Windows), "C:\\Users\\ann\\b");
    assert_eq!(join("C:/x/", "b", Platform::Windows), "C:/x/b");
    assert_eq!(join("/a\\", "b", Platform::Linux), "/a\\/b");
}

#[test]
fn ordering_is_stable_largest_first() {
    let arts = vec![
        Artifact { path: "a".to_string(), kind: ArtifactKind::NodeModules, size: 1 },
        Artifact { path: "b".to_string(), kind: ArtifactKind::NodeModules, size: 3 },
        Artifact { path: "c".to_string(), kind: ArtifactKind::NodeModules, size: 1 },
        Artifact { path: "d".to_string(), kind: ArtifactKind::NodeModules, size: 2 },
    ];
    let sorted = sort_desc_stable(arts);
    let order: Vec<&str> = sorted.iter().map(|a| a.path.as_str()).collect();
    assert_eq!(order, vec!["b", "d", "a", "c"]);
}
