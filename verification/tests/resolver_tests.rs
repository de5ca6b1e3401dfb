use uvm::resolver::{
    matches_request, resolve, sort_by_version, dedup_keys, ResolveOutcome, VersionKey,
};
use uvm::version::SemVer;

fn sv(major: u64, minor: u64, patch: u64, pre: &str) -> SemVer {
    SemVer {
        major,
        minor,
        patch,
        pre: pre.to_string(),
        build: String::new(),
    }
}

fn key(display: &str, sem: SemVer) -> VersionKey {
    VersionKey {
        display: display.to_string(),
        sem,
    }
}

#[test]
fn test_version_request() {
    let req = "1.20.1";
    let v1 = parse_go(&String::from("1.21.6"));
    assert!(matches_request(req, &v1).unwrap());
    let v2 = parse_go(&String::from("1.1.6"));
    assert!(!matches_request(req, &v2).unwrap());
}

fn parse_go(s: &str) -> SemVer {
    uvm::parse::parse_go_semver(s).expect("")
}

#[test]
fn test_invalid_expression() {
    assert!(matches_request("not a version range!!!", &sv(1, 0, 0, "")).is_none());
    let keys = vec![key("go1.21.0", sv(1, 21, 0, ""))];
    assert!(matches!(
        resolve(&keys, "not a version range!!!", "go-whatever"),
        ResolveOutcome::InvalidExpression
    ));
}

#[test]
fn test_exact_match_precedence() {
    // records for 1.21.0 and 1.21.0-rc1; the request's exact token names the
    // rc record, which must win over the newer-by-range release
    let keys = vec![
        key("1.21.0", sv(1, 21, 0, "")),
        key("1.21.0-rc1", sv(1, 21, 0, "rc1")),
    ];
    match resolve(&keys, "1.21.0-rc1", "1.21.0-rc1") {
        ResolveOutcome::Exact(i) => assert_eq!(1, i),
        _ => panic!("expected the exact record"),
    }
}

#[test]
fn test_range_selects_newest() {
    let keys = vec![
        key("1.18.0", sv(1, 18, 0, "")),
        key("1.19.0", sv(1, 19, 0, "")),
        key("1.20.0", sv(1, 20, 0, "")),
    ];
    match resolve(&keys, "^1.18", "1.18") {
        ResolveOutcome::Range(i) => assert_eq!(2, i),
        _ => panic!("expected a range match"),
    }
}

#[test]
fn test_no_match() {
    let keys = vec![key("1.2.3", sv(1, 2, 3, ""))];
    assert!(matches!(
        resolve(&keys, "^9.0", "9.0"),
        ResolveOutcome::NoMatch
    ));
    let empty: Vec<VersionKey> = Vec::new();
    assert!(matches!(resolve(&empty, "^1.0", "1.0"), ResolveOutcome::NoMatch));
}

#[test]
fn test_sort_oldest_first() {
    let keys = vec![
        key("b", sv(1, 10, 0, "")),
        key("a", sv(1, 2, 0, "")),
        key("c", sv(1, 21, 0, "rc1")),
        key("d", sv(1, 21, 0, "")),
    ];
    let sorted = sort_by_version(keys);
    let names: Vec<&str> = sorted.iter().map(|k| k.display.as_str()).collect();
    assert_eq!(vec!["a", "b", "c", "d"], names);
}

#[test]
fn test_dedup_keeps_first() {
    let keys = vec![
        key("first", sv(1, 2, 0, "")),
        key("second", sv(1, 2, 0, "")),
        key("third", sv(1, 3, 0, "")),
    ];
    let deduped = dedup_keys(keys);
    assert_eq!(2, deduped.len());
    assert_eq!("first", deduped[0].display);
    assert_eq!("third", deduped[1].display);
}
